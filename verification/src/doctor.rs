//! Checking that this machine can run Murmur, and saying how to fix what it cannot.

use crate::chars::{decimal, padded, push_decimal, push_padded, push_text};
use crate::config::{AsrEngine, Precision};
use crate::inject::{Capability, CapabilityView};
use crate::models::{choice, choose_variant, Family, Found, Variant};
use crate::order::name_views;
use crate::tools::{microphone_text, push_microphone};
use vstd::prelude::*;
use vstd::utf8::encode_utf8;

verus! {

/// A microphone that could be opened.
#[derive(Clone, Debug, PartialEq, Eq)]
pub struct Opened {
    pub name: String,
    pub rate: u32,
    pub channels: u16,
}

/// What is known of the models.
#[derive(Debug)]
pub struct Installed {
    pub engine: AsrEngine,
    pub precision: Precision,
    pub gpu_usable: bool,
    /// Where models are looked for.
    pub root: String,
    pub variants: Vec<Variant>,
    /// The last part of each variant's directory.
    pub names: Vec<String>,
}

/// What is known of the accelerator.
#[derive(Debug)]
pub enum Acceleration {
    /// The build has no CUDA execution provider.
    CpuOnly,
    /// The build has one, and this many libraries were loaded from the directory.
    Cuda { libraries: usize, dir: String },
}

/// Everything that was looked at.
#[derive(Debug)]
pub struct Checkup {
    pub report: Vec<Capability>,
    /// The configured trigger.
    pub trigger: String,
    /// The keyboards that can report it, or why there is no such key.
    pub keyboards: Result<Vec<String>, String>,
    pub microphone: Result<Opened, String>,
    pub models: Installed,
    pub acceleration: Acceleration,
}

pub open spec fn capability_views(report: Seq<Capability>) -> Seq<CapabilityView> {
    report.map_values(|c: Capability| c@)
}

/// The widest of the names, in bytes, and at least ten.
pub open spec fn column(report: Seq<Capability>) -> nat
    decreases report.len(),
{
    if report.len() == 0 {
        10
    } else {
        let before = column(report.drop_last());
        let n = encode_utf8(report.last().name@).len();
        if n > before {
            n
        } else {
            before
        }
    }
}

/// The width of the column of names.
pub fn width_of(report: &[Capability]) -> (r: usize)
    ensures
        r == column(report@),
        r >= 10,
{
    let mut width: usize = 10;
    for i in 0..report.len()
        invariant
            width == column(report@.take(i as int)),
            width >= 10,
    {
        assert(report@.take(i + 1).drop_last() =~= report@.take(i as int));
        let n: usize = report[i].name.as_bytes().len();
        if n > width {
            width = n;
        }
    }
    assert(report@.take(report@.len() as int) =~= report@);
    width
}

/// A line with a mark, a name in its column, and what is said of it.
pub open spec fn marked(mark: Seq<char>, name: Seq<char>, width: nat, detail: Seq<char>) -> Seq<
    char,
> {
    "  "@ + mark + " "@ + padded(name, width) + "  "@ + detail
}

fn mark_line(mark: &str, name: &str, width: usize, detail: &str) -> (r: String)
    ensures
        r@ == marked(mark@, name@, width as nat, detail@),
{
    let mut out = "  ".to_owned();
    push_text(&mut out, mark);
    push_text(&mut out, " ");
    push_padded(&mut out, name, width);
    push_text(&mut out, "  ");
    push_text(&mut out, detail);
    out
}

/// A line below another, under what is said there.
pub open spec fn below(width: nat, gap: Seq<char>, text: Seq<char>) -> Seq<char> {
    "      "@ + padded(""@, width) + gap + text
}

fn below_line(width: usize, gap: &str, text: &str) -> (r: String)
    ensures
        r@ == below(width as nat, gap@, text@),
{
    let mut out = "      ".to_owned();
    push_padded(&mut out, "", width);
    push_text(&mut out, gap);
    push_text(&mut out, text);
    out
}

pub open spec fn tick(yes: bool) -> Seq<char> {
    if yes {
        "\u{2713}"@
    } else {
        "\u{2717}"@
    }
}

/// The lines for one capability.
pub open spec fn capability_lines(c: CapabilityView, width: nat) -> Seq<Seq<char>> {
    let first = seq![marked(tick(c.available), c.name, width, c.detail)];
    match c.remedy {
        Some(remedy) => first.push(below(width, "  \u{2192} "@, remedy)),
        None => first,
    }
}

/// The lines for all of them.
pub open spec fn report_lines(report: Seq<CapabilityView>, width: nat) -> Seq<Seq<char>>
    decreases report.len(),
{
    if report.len() == 0 {
        Seq::empty()
    } else {
        report_lines(report.drop_last(), width) + capability_lines(report.last(), width)
    }
}

fn push_report(out: &mut Vec<String>, report: &[Capability], width: usize)
    ensures
        name_views(final(out)@) == name_views(old(out)@) + report_lines(
            capability_views(report@),
            width as nat,
        ),
{
    let ghost start = name_views(out@);
    let ghost all = capability_views(report@);
    assert(start + report_lines(all.take(0), width as nat) =~= start);
    for i in 0..report.len()
        invariant
            all == capability_views(report@),
            name_views(out@) == start + report_lines(all.take(i as int), width as nat),
    {
        let ghost before = name_views(out@);
        let capability = &report[i];
        let mark = if capability.available {
            "\u{2713}"
        } else {
            "\u{2717}"
        };
        out.push(mark_line(mark, capability.name, width, capability.detail.as_str()));
        if let Some(remedy) = &capability.remedy {
            out.push(below_line(width, "  \u{2192} ", remedy.as_str()));
        }
        proof {
            assert(all.take(i + 1).drop_last() =~= all.take(i as int));
            assert(all.take(i + 1).last() == report@[i as int]@);
            let lines = capability_lines(report@[i as int]@, width as nat);
            assert(name_views(out@) =~= before + lines);
            assert(before + lines =~= start + (report_lines(all.take(i as int), width as nat)
                + lines));
        }
    }
    assert(all.take(all.len() as int) =~= all);
}

/// The lines for the trigger.
pub open spec fn trigger_lines(
    key: Seq<char>,
    keyboards: Result<Vec<String>, String>,
    width: nat,
) -> Seq<Seq<char>> {
    match keyboards {
        Ok(boards) => {
            let first = seq![
                marked(
                    tick(true),
                    "trigger"@,
                    width,
                    key + " declared by "@ + decimal(boards@.len()) + " device(s)"@,
                ),
            ];
            let each = name_views(boards@).map_values(|b: Seq<char>| below(width, "    "@, b));
            if boards@.len() == 0 {
                first + each
            } else {
                (first + each).push(
                    below(
                        width,
                        "  \u{2192} "@,
                        "a device declaring the key is not proof it has one; run `murmur keys` and press it"@,
                    ),
                )
            }
        },
        Err(error) => seq![marked(tick(false), "trigger"@, width, error@)],
    }
}

fn push_trigger(out: &mut Vec<String>, key: &str, keyboards: &Result<Vec<String>, String>, width: usize)
    ensures
        name_views(final(out)@) == name_views(old(out)@) + trigger_lines(
            key@,
            *keyboards,
            width as nat,
        ),
{
    let ghost start = name_views(out@);
    match keyboards {
        Ok(boards) => {
            let mut detail = key.to_owned();
            push_text(&mut detail, " declared by ");
            push_decimal(&mut detail, boards.len() as u128);
            push_text(&mut detail, " device(s)");
            let line = mark_line("\u{2713}", "trigger", width, detail.as_str());
            let ghost first = line@;
            out.push(line);
            let ghost each = name_views(boards@).map_values(
                |b: Seq<char>| below(width as nat, "    "@, b),
            );
            assert(name_views(out@) =~= start.push(first) + each.take(0));
            for i in 0..boards.len()
                invariant
                    each == name_views(boards@).map_values(
                        |b: Seq<char>| below(width as nat, "    "@, b),
                    ),
                    name_views(out@) == start.push(first) + each.take(i as int),
            {
                let ghost before = name_views(out@);
                let board = below_line(width, "    ", boards[i].as_str());
                out.push(board);
                proof {
                    assert(name_views(boards@)[i as int] == boards@[i as int]@);
                    assert(each.take(i + 1) =~= each.take(i as int).push(each[i as int]));
                    assert(name_views(out@) =~= before.push(board@));
                    assert(before.push(board@) =~= start.push(first) + each.take(i + 1));
                }
            }
            assert(each.take(boards@.len() as int) =~= each);
            let ghost middle = name_views(out@);
            if boards.len() > 0 {
                let hint = below_line(
                    width,
                    "  \u{2192} ",
                    "a device declaring the key is not proof it has one; run `murmur keys` and press it",
                );
                out.push(hint);
                assert(name_views(out@) =~= middle.push(hint@));
            }
            assert(name_views(out@) =~= start + trigger_lines(key@, *keyboards, width as nat));
        },
        Err(error) => {
            out.push(mark_line("\u{2717}", "trigger", width, error.as_str()));
            assert(name_views(out@) =~= start + trigger_lines(key@, *keyboards, width as nat));
        },
    }
}

/// The line for the microphone.
pub open spec fn microphone_line(microphone: Result<Opened, String>, width: nat) -> Seq<char> {
    match microphone {
        Ok(m) => marked(
            tick(true),
            "microphone"@,
            width,
            microphone_text(m.name@, m.rate as nat, m.channels as nat),
        ),
        Err(error) => marked(tick(false), "microphone"@, width, error@),
    }
}

fn mic_line(microphone: &Result<Opened, String>, width: usize) -> (r: String)
    ensures
        r@ == microphone_line(*microphone, width as nat),
{
    match microphone {
        Ok(m) => {
            let mut detail = String::new();
            push_microphone(&mut detail, m.name.as_str(), m.rate, m.channels);
            assert(detail@ =~= microphone_text(m.name@, m.rate as nat, m.channels as nat));
            mark_line("\u{2713}", "microphone", width, detail.as_str())
        },
        Err(error) => mark_line("\u{2717}", "microphone", width, error.as_str()),
    }
}

pub open spec fn needed(engine: AsrEngine) -> Family {
    match engine {
        AsrEngine::Nemotron => Family::NemotronStreaming,
        _ => Family::ParakeetTdt,
    }
}

/// The architecture the configured engine needs.
#[must_use]
pub fn family_for(engine: AsrEngine) -> (r: Family)
    ensures
        r == needed(engine),
{
    match engine {
        AsrEngine::Nemotron => Family::NemotronStreaming,
        _ => Family::ParakeetTdt,
    }
}

pub open spec fn kind_text(kind: Found) -> Seq<char> {
    match kind {
        Found::Fp32 => "Fp32"@,
        Found::Int8 => "Int8"@,
    }
}

/// The precision's name.
#[must_use]
pub fn kind_name(kind: Found) -> (r: &'static str)
    ensures
        r@ == kind_text(kind),
{
    match kind {
        Found::Fp32 => "Fp32",
        Found::Int8 => "Int8",
    }
}

impl Installed {
    /// There is a name for every variant.
    pub open spec fn valid(self) -> bool {
        self.names@.len() == self.variants@.len()
    }

    /// The variant at a place is the one that would be loaded.
    pub open spec fn selects(self, place: int) -> bool {
        choice(self.variants@, self.gpu_usable, self.precision, needed(self.engine)) matches Some(
            i,
        ) && self.variants@[i as int]@ == self.variants@[place]@
    }

    /// The line for one variant.
    pub open spec fn variant_line(self, place: int, width: nat) -> Seq<char> {
        marked(
            if self.selects(place) {
                "\u{2713}"@
            } else {
                "\u{2022}"@
            },
            "model"@,
            width,
            self.names@[place]@ + " ["@ + kind_text(self.variants@[place].kind) + "]"@ + (
            if self.selects(place) {
                "  \u{2190} selected"@
            } else {
                ""@
            }),
        )
    }

    /// The lines for the models.
    pub open spec fn lines(self, width: nat) -> Seq<Seq<char>> {
        if self.engine == AsrEngine::Mock {
            seq![marked(tick(true), "model"@, width, "scripted transcriber (no model needed)"@)]
        } else if self.variants@.len() == 0 {
            seq![
                marked(tick(false), "model"@, width, "no model under "@ + self.root@),
                below(width, "  \u{2192} "@, "see the Models section of the README"@),
            ]
        } else {
            Seq::new(self.variants@.len(), |i: int| self.variant_line(i, width))
        }
    }
}

/// Report which weights are installed and which would be loaded.
///
/// The choice depends on hardware, so showing it here saves the user working out
/// why a 2.5 GB model did or did not get picked.
pub fn model_report(models: &Installed, width: usize) -> (r: Vec<String>)
    requires
        models.valid(),
    ensures
        name_views(r@) == models.lines(width as nat),
{
    let mut out: Vec<String> = Vec::new();
    if models.engine == AsrEngine::Mock {
        out.push(mark_line("\u{2713}", "model", width, "scripted transcriber (no model needed)"));
        assert(name_views(out@) =~= models.lines(width as nat));
        return out;
    }
    if models.variants.len() == 0 {
        let mut detail = "no model under ".to_owned();
        push_text(&mut detail, models.root.as_str());
        out.push(mark_line("\u{2717}", "model", width, detail.as_str()));
        out.push(below_line(width, "  \u{2192} ", "see the Models section of the README"));
        assert(name_views(out@) =~= models.lines(width as nat));
        return out;
    }
    let chosen = choose_variant(
        models.variants.as_slice(),
        models.gpu_usable,
        models.precision,
        family_for(models.engine),
    );
    for i in 0..models.variants.len()
        invariant
            models.valid(),
            models.engine != AsrEngine::Mock,
            models.variants@.len() > 0,
            out@.len() == i,
            match chosen {
                Some(v) => choice(
                    models.variants@,
                    models.gpu_usable,
                    models.precision,
                    needed(models.engine),
                ) matches Some(k) && k < models.variants@.len() && *v
                    == models.variants@[k as int],
                None => choice(
                    models.variants@,
                    models.gpu_usable,
                    models.precision,
                    needed(models.engine),
                ) is None,
            },
            forall|k: int|
                0 <= k < i ==> (#[trigger] out@[k])@ == models.variant_line(k, width as nat),
    {
        let variant = &models.variants[i];
        let selected = match chosen {
            Some(v) => v.dir == variant.dir && v.kind == variant.kind && v.family
                == variant.family,
            None => false,
        };
        assert(selected == models.selects(i as int));
        let mut detail = models.names[i].clone();
        push_text(&mut detail, " [");
        push_text(&mut detail, kind_name(variant.kind));
        push_text(&mut detail, "]");
        if selected {
            push_text(&mut detail, "  \u{2190} selected");
        } else {
            push_text(&mut detail, "");
        }
        let mark = if selected {
            "\u{2713}"
        } else {
            "\u{2022}"
        };
        let line = mark_line(mark, "model", width, detail.as_str());
        out.push(line);
    }
    assert(name_views(out@) =~= models.lines(width as nat));
    out
}

/// The line for the accelerator.
pub open spec fn acceleration_line(acceleration: Acceleration, width: nat) -> Seq<char> {
    match acceleration {
        Acceleration::CpuOnly => marked(
            "\u{2022}"@,
            "accelerator"@,
            width,
            "CPU only (rebuild with --features cuda for GPU)"@,
        ),
        Acceleration::Cuda { libraries, dir } => if libraries == 0 {
            marked(
                "\u{2022}"@,
                "accelerator"@,
                width,
                "CUDA build; no bundled runtime at "@ + dir@,
            )
        } else {
            marked(
                "\u{2713}"@,
                "accelerator"@,
                width,
                "CUDA build; "@ + decimal(libraries as nat) + " runtime libraries from "@ + dir@,
            )
        },
    }
}

/// Report whether the configured accelerator can actually be used.
///
/// ONNX Runtime downgrades to CPU silently when a provider fails to load, so
/// this is checked and named rather than assumed.
pub fn accelerator_report(acceleration: &Acceleration, width: usize) -> (r: String)
    ensures
        r@ == acceleration_line(*acceleration, width as nat),
{
    match acceleration {
        Acceleration::CpuOnly => mark_line(
            "\u{2022}",
            "accelerator",
            width,
            "CPU only (rebuild with --features cuda for GPU)",
        ),
        Acceleration::Cuda { libraries, dir } => {
            if *libraries == 0 {
                let mut detail = "CUDA build; no bundled runtime at ".to_owned();
                push_text(&mut detail, dir.as_str());
                mark_line("\u{2022}", "accelerator", width, detail.as_str())
            } else {
                let mut detail = "CUDA build; ".to_owned();
                push_decimal(&mut detail, *libraries as u128);
                push_text(&mut detail, " runtime libraries from ");
                push_text(&mut detail, dir.as_str());
                mark_line("\u{2713}", "accelerator", width, detail.as_str())
            }
        },
    }
}

/// Text cannot be injected: the virtual keyboard is unavailable.
pub open spec fn is_blocked(report: Seq<CapabilityView>) -> bool {
    exists|i: int|
        0 <= i < report.len() && !(#[trigger] report[i]).available && report[i].name == "uinput"@
}

fn blocked(report: &[Capability]) -> (r: bool)
    ensures
        r == is_blocked(capability_views(report@)),
{
    let ghost all = capability_views(report@);
    for i in 0..report.len()
        invariant
            all == capability_views(report@),
            forall|k: int| 0 <= k < i ==> (#[trigger] all[k]).available || all[k].name != "uinput"@,
    {
        assert(all[i as int] == report@[i as int]@);
        if !report[i].available && report[i].name.to_owned() == "uinput".to_owned() {
            return true;
        }
    }
    false
}

impl Checkup {
    /// Everything `murmur doctor` prints.
    pub open spec fn lines(self) -> Seq<Seq<char>> {
        let width = column(self.report@);
        seq!["murmur doctor\n"@] + report_lines(capability_views(self.report@), width)
            + trigger_lines(self.trigger@, self.keyboards, width) + seq![
            microphone_line(self.microphone, width),
        ] + self.models.lines(width) + seq![acceleration_line(self.acceleration, width), ""@]
    }
}

/// What `murmur doctor` prints, line by line, and what it comes to.
pub fn doctor(checkup: &Checkup) -> (r: (Vec<String>, Result<&'static str, &'static str>))
    requires
        checkup.models.valid(),
    ensures
        name_views(r.0@) == checkup.lines(),
        match r.1 {
            Ok(line) => !is_blocked(capability_views(checkup.report@)) && line@
                == "  ready. `murmur selftest` verifies injection; `murmur listen --mock` the whole loop."@,
            Err(message) => is_blocked(capability_views(checkup.report@)) && message@
                == "cannot inject text: uinput unavailable"@,
        },
{
    let width: usize = width_of(checkup.report.as_slice());
    let mut out = vec!["murmur doctor\n".to_owned()];
    assert(name_views(out@) =~= seq!["murmur doctor\n"@]);
    push_report(&mut out, checkup.report.as_slice(), width);
    push_trigger(&mut out, checkup.trigger.as_str(), &checkup.keyboards, width);
    let ghost so_far = name_views(out@);
    let mic = mic_line(&checkup.microphone, width);
    let ghost mic_text = mic@;
    out.push(mic);
    assert(name_views(out@) =~= so_far + seq![mic_text]);
    let mut models = model_report(&checkup.models, width);
    let ghost with_mic = out@;
    let ghost model_lines = models@;
    out.append(&mut models);
    assert(name_views(out@) =~= name_views(with_mic) + name_views(model_lines));
    let ghost with_models = name_views(out@);
    let accelerator = accelerator_report(&checkup.acceleration, width);
    let ghost accelerator_text = accelerator@;
    out.push(accelerator);
    out.push("".to_owned());
    assert(name_views(out@) =~= with_models + seq![accelerator_text, ""@]);
    let verdict = if blocked(checkup.report.as_slice()) {
        Err("cannot inject text: uinput unavailable")
    } else {
        Ok(
            "  ready. `murmur selftest` verifies injection; `murmur listen --mock` the whole loop.",
        )
    };
    (out, verdict)
}

/// The lines of `murmur models list`.
pub open spec fn list_lines(root: Seq<char>, variants: Seq<Variant>) -> Seq<Seq<char>> {
    if variants.len() == 0 {
        seq!["  no models under "@ + root, "  \u{2192} murmur models pull"@]
    } else {
        Seq::new(
            variants.len(),
            |i: int| "  "@ + kind_text(variants[i].kind) + "  "@ + variants[i].dir@,
        )
    }
}

/// What `murmur models list` prints, line by line.
pub fn list_models(root: &str, variants: &[Variant]) -> (r: Vec<String>)
    ensures
        name_views(r@) == list_lines(root@, variants@),
{
    let mut out: Vec<String> = Vec::new();
    if variants.len() == 0 {
        let mut line = "  no models under ".to_owned();
        push_text(&mut line, root);
        out.push(line);
        out.push("  \u{2192} murmur models pull".to_owned());
        assert(name_views(out@) =~= list_lines(root@, variants@));
        return out;
    }
    for i in 0..variants.len()
        invariant
            out@.len() == i,
            forall|k: int|
                0 <= k < i ==> (#[trigger] out@[k])@ == "  "@ + kind_text(variants@[k].kind) + "  "@
                    + variants@[k].dir@,
    {
        let mut line = "  ".to_owned();
        push_text(&mut line, kind_name(variants[i].kind));
        push_text(&mut line, "  ");
        push_text(&mut line, variants[i].dir.as_str());
        out.push(line);
    }
    assert(name_views(out@) =~= list_lines(root@, variants@));
    out
}

/// The column of names is as wide as the widest of them in bytes, and at least ten.
pub proof fn law_the_column_fits_every_name(report: Seq<Capability>)
    ensures
        column(report) >= 10,
        forall|i: int|
            0 <= i < report.len() ==> encode_utf8((#[trigger] report[i]).name@).len() <= column(
                report,
            ),
        column(report) == 10 || exists|i: int|
            0 <= i < report.len() && encode_utf8((#[trigger] report[i]).name@).len() == column(
                report,
            ),
    decreases report.len(),
{
    if report.len() > 0 {
        let front = report.drop_last();
        law_the_column_fits_every_name(front);
        assert forall|i: int| 0 <= i < report.len() implies encode_utf8(
            (#[trigger] report[i]).name@,
        ).len() <= column(report) by {
            if i < front.len() {
                assert(front[i] == report[i]);
            }
        }
        if column(report) != 10 {
            if column(report) == column(front) {
                let i = choose|i: int|
                    0 <= i < front.len() && encode_utf8((#[trigger] front[i]).name@).len()
                        == column(front);
                assert(report[i] == front[i]);
            } else {
                assert(report[report.len() - 1] == report.last());
            }
        }
    }
}

/// One more capability is reported after the others, with a tick where it is there and
/// a cross where it is not, and below it how to mend it if there is a way.
pub proof fn law_one_more_capability(
    report: Seq<CapabilityView>,
    capability: CapabilityView,
    width: nat,
)
    ensures
        report_lines(Seq::empty(), width) == Seq::<Seq<char>>::empty(),
        ({
            let line = "  "@ + (if capability.available {
                "\u{2713}"@
            } else {
                "\u{2717}"@
            }) + " "@ + padded(capability.name, width) + "  "@ + capability.detail;
            report_lines(report.push(capability), width) == (match capability.remedy {
                None => report_lines(report, width).push(line),
                Some(remedy) => report_lines(report, width).push(line).push(
                    "      "@ + padded(""@, width) + "  \u{2192} "@ + remedy,
                ),
            })
        }),
{
    assert(report.push(capability).drop_last() =~= report);
    let before = report_lines(report, width);
    let line = marked(tick(capability.available), capability.name, width, capability.detail);
    match capability.remedy {
        None => {
            assert(before + seq![line] =~= before.push(line));
        },
        Some(remedy) => {
            let second = below(width, "  \u{2192} "@, remedy);
            assert(before + seq![line].push(second) =~= before.push(line).push(second));
        },
    }
}

/// Dictation is impossible exactly where the virtual keyboard is: nothing else that is
/// missing blocks it.
pub proof fn law_only_the_keyboard_blocks(report: Seq<CapabilityView>, capability: CapabilityView)
    ensures
        !is_blocked(Seq::<CapabilityView>::empty()),
        is_blocked(report.push(capability)) <==> is_blocked(report) || (!capability.available
            && capability.name == "uinput"@),
{
    let all = report.push(capability);
    if is_blocked(report) {
        let i = choose|i: int|
            0 <= i < report.len() && !(#[trigger] report[i]).available && report[i].name
                == "uinput"@;
        assert(all[i] == report[i]);
    }
    if !capability.available && capability.name == "uinput"@ {
        assert(all[report.len() as int] == capability);
    }
    if is_blocked(all) && !is_blocked(report) {
        let i = choose|i: int|
            0 <= i < all.len() && !(#[trigger] all[i]).available && all[i].name == "uinput"@;
        if i < report.len() {
            assert(report[i] == all[i]);
        }
    }
}

/// Which weights would be loaded is marked, and no others are: those that the choice
/// for the configured engine, precision and machine falls on.
pub proof fn law_the_selected_weights_are_marked(models: Installed, place: int, width: nat)
    requires
        models.valid(),
        models.engine != AsrEngine::Mock,
        0 <= place < models.variants@.len(),
    ensures
        ({
            let family = if models.engine == AsrEngine::Nemotron {
                Family::NemotronStreaming
            } else {
                Family::ParakeetTdt
            };
            let chosen = choice(models.variants@, models.gpu_usable, models.precision, family);
            let variant = models.variants@[place];
            let marked_it = chosen matches Some(i) && models.variants@[i as int]@ == variant@;
            let kind = match variant.kind {
                Found::Fp32 => "Fp32"@,
                Found::Int8 => "Int8"@,
            };
            &&& models.lines(width).len() == models.variants@.len()
            &&& marked_it ==> models.lines(width)[place] == marked(
                "\u{2713}"@,
                "model"@,
                width,
                models.names@[place]@ + " ["@ + kind + "]"@ + "  \u{2190} selected"@,
            )
            &&& !marked_it ==> models.lines(width)[place] == marked(
                "\u{2022}"@,
                "model"@,
                width,
                models.names@[place]@ + " ["@ + kind + "]"@ + ""@,
            )
        }),
{
}

/// The report begins with its title, then comes what the session can do, the trigger,
/// the microphone, the models and the accelerator, each in its place.
pub proof fn law_the_order_of_the_report(checkup: Checkup)
    ensures
        ({
            let width = column(checkup.report@);
            let lines = checkup.lines();
            let abilities = report_lines(capability_views(checkup.report@), width);
            let trigger = trigger_lines(checkup.trigger@, checkup.keyboards, width);
            let models = checkup.models.lines(width);
            let a = 1 + abilities.len() as int;
            let b = a + trigger.len() as int;
            let c = b + 1 + models.len() as int;
            &&& lines.len() == c + 2
            &&& lines[0] == "murmur doctor\n"@
            &&& lines.subrange(1, a) == abilities
            &&& lines.subrange(a, b) == trigger
            &&& lines[b] == microphone_line(checkup.microphone, width)
            &&& lines.subrange(b + 1, c) == models
            &&& lines[c] == acceleration_line(checkup.acceleration, width)
            &&& lines[c + 1] == ""@
        }),
{
    let width = column(checkup.report@);
    let lines = checkup.lines();
    let abilities = report_lines(capability_views(checkup.report@), width);
    let trigger = trigger_lines(checkup.trigger@, checkup.keyboards, width);
    let models = checkup.models.lines(width);
    let a = 1 + abilities.len() as int;
    let b = a + trigger.len() as int;
    let c = b + 1 + models.len() as int;
    assert(lines.subrange(1, a) =~= abilities);
    assert(lines.subrange(a, b) =~= trigger);
    assert(lines.subrange(b + 1, c) =~= models);
}

/// What is said of the trigger: how many devices declare it and which, with a caution;
/// or why that is not known.
pub proof fn law_what_is_said_of_the_trigger(
    key: Seq<char>,
    keyboards: Result<Vec<String>, String>,
    width: nat,
    i: int,
)
    ensures
        keyboards matches Err(error) ==> trigger_lines(key, keyboards, width) == seq![
            marked("\u{2717}"@, "trigger"@, width, error@),
        ],
        keyboards matches Ok(boards) ==> {
            let lines = trigger_lines(key, keyboards, width);
            let n = boards@.len() as int;
            &&& lines.len() == (if n == 0 {
                1
            } else {
                n + 2
            })
            &&& lines[0] == marked(
                "\u{2713}"@,
                "trigger"@,
                width,
                key + " declared by "@ + decimal(boards@.len()) + " device(s)"@,
            )
            &&& 0 <= i < n ==> lines[1 + i] == below(width, "    "@, boards@[i]@)
        },
{
}

/// What is said of the microphone and of the accelerator.
pub proof fn law_what_is_said_of_the_devices(
    microphone: Result<Opened, String>,
    acceleration: Acceleration,
    width: nat,
)
    ensures
        microphone matches Ok(m) ==> microphone_line(microphone, width) == marked(
            "\u{2713}"@,
            "microphone"@,
            width,
            m.name@ + " ("@ + decimal(m.rate as nat) + " Hz, "@ + decimal(m.channels as nat)
                + " ch)"@,
        ),
        microphone matches Err(error) ==> microphone_line(microphone, width) == marked(
            "\u{2717}"@,
            "microphone"@,
            width,
            error@,
        ),
        acceleration is CpuOnly ==> acceleration_line(acceleration, width) == marked(
            "\u{2022}"@,
            "accelerator"@,
            width,
            "CPU only (rebuild with --features cuda for GPU)"@,
        ),
        acceleration matches Acceleration::Cuda { libraries, dir } ==> acceleration_line(
            acceleration,
            width,
        ) == (if libraries == 0 {
            marked(
                "\u{2022}"@,
                "accelerator"@,
                width,
                "CUDA build; no bundled runtime at "@ + dir@,
            )
        } else {
            marked(
                "\u{2713}"@,
                "accelerator"@,
                width,
                "CUDA build; "@ + decimal(libraries as nat) + " runtime libraries from "@ + dir@,
            )
        }),
{
}

/// The models are listed one to a line by precision and place; where there are none,
/// how to get one.
pub proof fn law_how_models_are_listed(root: Seq<char>, variants: Seq<Variant>, i: int)
    ensures
        variants.len() == 0 ==> list_lines(root, variants) == seq![
            "  no models under "@ + root,
            "  \u{2192} murmur models pull"@,
        ],
        variants.len() > 0 ==> list_lines(root, variants).len() == variants.len(),
        0 <= i < variants.len() ==> list_lines(root, variants)[i] == "  "@ + (
        if variants[i].kind == Found::Fp32 {
            "Fp32"@
        } else {
            "Int8"@
        }) + "  "@ + variants[i].dir@,
{
}

} // verus!
