//! Murmur's mark, drawn rather than shipped.
//!
//! The icon is the same waveform the overlay draws, computed from the same kind
//! of profile, at whatever size is asked for. That means there is no binary
//! asset to keep in step with the design, no image decoder in the dependency
//! tree, and a tray icon that is crisp at every panel height rather than a
//! scaled 22-pixel PNG.
//!
//! How much of each pixel the shapes cover comes from outside, as a count of
//! samples; the colours that follow from it are worked out here.

use crate::chars::push_text;
use vstd::prelude::*;

verus! {

/// Bars in the mark.
pub const BARS: usize = 7;

/// Samples per axis when deciding how much of a pixel a shape covers.
pub const SUPERSAMPLE: u32 = 3;

/// Samples in a pixel.
pub const SAMPLES: u32 = 9;

/// How many of a pixel's samples the bars and the slab each cover.
#[derive(Debug, Clone, Copy, PartialEq, Eq)]
pub struct Cover {
    pub mark: u32,
    pub slab: u32,
}

/// A colour with its opacity.
#[derive(Debug, Clone, Copy, PartialEq, Eq, Structural)]
pub struct Pixel {
    pub r: u8,
    pub g: u8,
    pub b: u8,
    pub a: u8,
}

impl Cover {
    pub open spec fn valid(self) -> bool {
        self.mark <= SAMPLES && self.slab <= SAMPLES
    }

    /// Samples that either covers.
    pub open spec fn any(self) -> nat {
        if self.mark >= self.slab {
            self.mark as nat
        } else {
            self.slab as nat
        }
    }
}

/// The opacity of a pixel of which so many of the nine samples are covered, to the
/// nearest.
pub open spec fn opacity(covered: nat) -> nat {
    (510 * covered + 9) / 18
}

/// A channel that is `over` in `part` of `whole` and `under` in the rest, to the
/// nearest, halves up.
pub open spec fn mixed(under: nat, over: nat, part: nat, whole: nat) -> nat {
    if whole == 0 || part > whole {
        under
    } else {
        (2 * (under * (whole - part) as nat + over * part) + whole) / (2 * whole)
    }
}

/// The colour of a pixel.
///
/// On a tile, the mark is opaque where it covers, the slab beneath it fills the
/// rest, and the rounded corners stay clear.
pub open spec fn colour(cover: Cover, tile: bool) -> Pixel {
    if tile {
        Pixel {
            r: mixed(18, 92, cover.mark as nat, cover.any()) as u8,
            g: mixed(19, 219, cover.mark as nat, cover.any()) as u8,
            b: mixed(23, 181, cover.mark as nat, cover.any()) as u8,
            a: opacity(cover.any()) as u8,
        }
    } else {
        Pixel { r: 92, g: 219, b: 181, a: opacity(cover.mark as nat) as u8 }
    }
}

fn blend(under: u32, over: u32, part: u32, whole: u32) -> (r: u8)
    requires
        under <= over <= 255,
        part <= whole <= SAMPLES,
    ensures
        r == mixed(under as nat, over as nat, part as nat, whole as nat),
{
    if whole == 0 {
        return under as u8;
    }
    assert(under * (whole - part) + over * part <= 255 * whole && under * (whole - part) + over
        * part >= 0 && 0 <= under * (whole - part) <= 255 * 9 && 0 <= over * part <= 255 * 9)
        by (nonlinear_arith)
        requires
            under <= over <= 255,
            part <= whole <= 9,
    ;
    let sum: u32 = 2 * (under * (whole - part) + over * part) + whole;
    assert(sum as int / (2 * whole) <= 255) by (nonlinear_arith)
        requires
            sum <= 2 * (255 * whole) + whole,
            whole > 0,
    ;
    (sum / (2 * whole)) as u8
}

fn alpha(covered: u32) -> (r: u8)
    requires
        covered <= SAMPLES,
    ensures
        r == opacity(covered as nat),
{
    ((510 * covered + 9) / 18) as u8
}

/// The colour of a pixel.
pub fn pixel(cover: Cover, tile: bool) -> (r: Pixel)
    requires
        cover.valid(),
    ensures
        r == colour(cover, tile),
{
    if tile {
        let any: u32 = if cover.mark >= cover.slab {
            cover.mark
        } else {
            cover.slab
        };
        Pixel {
            r: blend(18, 92, cover.mark, any),
            g: blend(19, 219, cover.mark, any),
            b: blend(23, 181, cover.mark, any),
            a: alpha(any),
        }
    } else {
        Pixel { r: 92, g: 219, b: 181, a: alpha(cover.mark) }
    }
}

/// The pixels' channels one after another, red first.
pub open spec fn channels(cover: Seq<Cover>, tile: bool) -> Seq<u8> {
    Seq::new(
        cover.len() * 4,
        |i: int|
            {
                let p = colour(cover[i / 4], tile);
                if i % 4 == 0 {
                    p.r
                } else if i % 4 == 1 {
                    p.g
                } else if i % 4 == 2 {
                    p.b
                } else {
                    p.a
                }
            },
    )
}

pub open spec fn all_valid(cover: Seq<Cover>) -> bool {
    forall|i: int| 0 <= i < cover.len() ==> (#[trigger] cover[i]).valid()
}

/// RGBA8 pixels for an icon `size` across, given how much of each pixel is covered,
/// row by row.
///
/// With `tile`, the mark sits on a rounded slab, which is what a launcher or
/// window list expects. Without, only the bars are drawn, which is what a panel
/// wants — it composites onto whatever colour the theme happens to be.
#[must_use]
pub fn rgba(size: u32, tile: bool, cover: &[Cover]) -> (r: Vec<u8>)
    requires
        cover@.len() == size * size,
        all_valid(cover@),
        size * size * 4 <= u32::MAX,
    ensures
        r@.len() == size * size * 4,
        r@ == channels(cover@, tile),
{
    let mut pixels: Vec<u8> = Vec::new();
    for i in 0..cover.len()
        invariant
            all_valid(cover@),
            pixels@.len() == i * 4,
            forall|k: int| 0 <= k < i * 4 ==> pixels@[k] == #[trigger] channels(cover@, tile)[k],
    {
        assert(cover@[i as int].valid());
        let p = pixel(cover[i], tile);
        pixels.push(p.r);
        pixels.push(p.g);
        pixels.push(p.b);
        pixels.push(p.a);
    }
    assert(pixels@ =~= channels(cover@, tile));
    pixels
}

/// ARGB pixels, which is the order a `StatusNotifierItem` carries them in: the
/// same pixels with the opacity moved to the front of each.
#[must_use]
pub fn argb(size: u32, tile: bool, cover: &[Cover]) -> (r: Vec<u8>)
    requires
        cover@.len() == size * size,
        all_valid(cover@),
        size * size * 4 <= u32::MAX,
    ensures
        r@.len() == size * size * 4,
        forall|i: int|
            0 <= i < cover@.len() ==> {
                let p = colour(#[trigger] cover@[i], tile);
                &&& r@[4 * i] == p.a
                &&& r@[4 * i + 1] == p.r
                &&& r@[4 * i + 2] == p.g
                &&& r@[4 * i + 3] == p.b
            },
{
    let mut pixels: Vec<u8> = Vec::new();
    for i in 0..cover.len()
        invariant
            all_valid(cover@),
            pixels@.len() == i * 4,
            forall|k: int|
                0 <= k < i ==> {
                    let p = colour(#[trigger] cover@[k], tile);
                    &&& pixels@[4 * k] == p.a
                    &&& pixels@[4 * k + 1] == p.r
                    &&& pixels@[4 * k + 2] == p.g
                    &&& pixels@[4 * k + 3] == p.b
                },
    {
        assert(cover@[i as int].valid());
        let p = pixel(cover[i], tile);
        pixels.push(p.a);
        pixels.push(p.r);
        pixels.push(p.g);
        pixels.push(p.b);
    }
    pixels
}

/// A pixel the shapes leave clear is fully transparent, one they cover is fully
/// opaque, and covering more never makes it more transparent.
pub proof fn law_opacity_follows_cover(less: nat, more: nat)
    requires
        less <= more <= SAMPLES,
    ensures
        opacity(0) == 0,
        opacity(SAMPLES as nat) == 255,
        opacity(less) <= opacity(more) <= 255,
{
}

/// The slab behind the mark, its lengths written out.
#[derive(Debug, Clone, PartialEq, Eq)]
pub struct Slab {
    pub inset: String,
    pub size: String,
    pub radius: String,
}

/// One bar of the mark, its lengths written out.
#[derive(Debug, Clone, PartialEq, Eq)]
pub struct Bar {
    pub x: String,
    pub y: String,
    pub width: String,
    pub height: String,
    pub radius: String,
}

/// A rectangle with rounded corners.
pub open spec fn rectangle(
    x: Seq<char>,
    y: Seq<char>,
    width: Seq<char>,
    height: Seq<char>,
    radius: Seq<char>,
    fill: Seq<char>,
) -> Seq<char> {
    "  <rect x=\""@ + x + "\" y=\""@ + y + "\" width=\""@ + width + "\" height=\""@ + height
        + "\" rx=\""@ + radius + "\" fill=\""@ + fill + "\"/>\n"@
}

/// The slab.
pub open spec fn slab_markup(slab: Slab) -> Seq<char> {
    rectangle(slab.inset@, slab.inset@, slab.size@, slab.size@, slab.radius@, "#121317"@)
}

/// One bar.
pub open spec fn bar_markup(bar: Bar) -> Seq<char> {
    rectangle(bar.x@, bar.y@, bar.width@, bar.height@, bar.radius@, "#5cdbb5"@)
}

/// The bars in order.
pub open spec fn bars_markup(bars: Seq<Bar>) -> Seq<char>
    decreases bars.len(),
{
    if bars.len() == 0 {
        Seq::empty()
    } else {
        bars_markup(bars.drop_last()) + bar_markup(bars.last())
    }
}

/// The whole drawing: its head, a rectangle for the slab and one for each bar.
pub open spec fn drawing(slab: Slab, bars: Seq<Bar>) -> Seq<char> {
    "<svg xmlns=\"http://www.w3.org/2000/svg\" width=\"256\" height=\"256\" viewBox=\"0 0 256 256\">\n"@
        + slab_markup(slab) + bars_markup(bars) + "</svg>\n"@
}

fn push_rectangle(
    out: &mut String,
    x: &str,
    y: &str,
    width: &str,
    height: &str,
    radius: &str,
    fill: &str,
)
    ensures
        final(out)@ == old(out)@ + rectangle(x@, y@, width@, height@, radius@, fill@),
{
    let mut shape = "  <rect x=\"".to_owned();
    push_text(&mut shape, x);
    push_text(&mut shape, "\" y=\"");
    push_text(&mut shape, y);
    push_text(&mut shape, "\" width=\"");
    push_text(&mut shape, width);
    push_text(&mut shape, "\" height=\"");
    push_text(&mut shape, height);
    push_text(&mut shape, "\" rx=\"");
    push_text(&mut shape, radius);
    push_text(&mut shape, "\" fill=\"");
    push_text(&mut shape, fill);
    push_text(&mut shape, "\"/>\n");
    push_text(out, shape.as_str());
}

/// The same mark as scalable vector art, for the icon theme.
///
/// Icon themes want something that is crisp at any size, and an SVG needs no
/// encoder — so the installed icon is generated from the same geometry as the
/// pixels above rather than being a separate asset that can drift from them.
#[must_use]
pub fn svg(slab: &Slab, bars: &[Bar]) -> (r: String)
    requires
        bars@.len() == BARS,
    ensures
        r@ == drawing(*slab, bars@),
{
    let mut out = "<svg xmlns=\"http://www.w3.org/2000/svg\" width=\"256\" height=\"256\" viewBox=\"0 0 256 256\">\n".to_owned();
    push_rectangle(
        &mut out,
        slab.inset.as_str(),
        slab.inset.as_str(),
        slab.size.as_str(),
        slab.size.as_str(),
        slab.radius.as_str(),
        "#121317",
    );
    let ghost head = out@;
    assert(head + bars_markup(bars@.take(0)) =~= head);
    for i in 0..bars.len()
        invariant
            out@ == head + bars_markup(bars@.take(i as int)),
    {
        let ghost before = bars_markup(bars@.take(i as int));
        let bar = &bars[i];
        push_rectangle(
            &mut out,
            bar.x.as_str(),
            bar.y.as_str(),
            bar.width.as_str(),
            bar.height.as_str(),
            bar.radius.as_str(),
            "#5cdbb5",
        );
        proof {
            assert(bars@.take(i + 1).drop_last() =~= bars@.take(i as int));
            assert((head + before) + bar_markup(bars@[i as int]) =~= head + (before + bar_markup(
                bars@[i as int],
            )));
        }
    }
    assert(bars@.take(bars@.len() as int) =~= bars@);
    push_text(&mut out, "</svg>\n");
    out
}

/// How often the word starts in the text.
pub open spec fn occurrences(text: Seq<char>, word: Seq<char>) -> nat
    decreases text.len(),
{
    if text.len() == 0 {
        0
    } else {
        occurrences(text.skip(1), word) + if word.is_prefix_of(text) {
            1nat
        } else {
            0
        }
    }
}

/// A length written in digits, with a point where it has one.
pub open spec fn is_length(s: Seq<char>) -> bool {
    forall|i: int| 0 <= i < s.len() ==> '0' <= #[trigger] s[i] <= '9' || s[i] == '.'
}

pub open spec fn slab_is_written(slab: Slab) -> bool {
    is_length(slab.inset@) && is_length(slab.size@) && is_length(slab.radius@)
}

pub open spec fn bar_is_written(bar: Bar) -> bool {
    &&& is_length(bar.x@)
    &&& is_length(bar.y@)
    &&& is_length(bar.width@)
    &&& is_length(bar.height@)
    &&& is_length(bar.radius@)
}

/// Nothing that a rectangle or a missing number begins with.
spec fn is_plain(s: Seq<char>) -> bool {
    forall|i: int| 0 <= i < s.len() ==> #[trigger] s[i] != '<' && s[i] != 'N'
}

/// A text after which a rectangle cannot already have begun.
spec fn ends_apart(s: Seq<char>) -> bool {
    s.len() == 0 || !"<rect"@.contains(s.last())
}

proof fn lemma_occurrences_apart(a: Seq<char>, b: Seq<char>)
    requires
        ends_apart(a),
    ensures
        occurrences(a + b, "<rect"@) == occurrences(a, "<rect"@) + occurrences(b, "<rect"@),
    decreases a.len(),
{
    let word = "<rect"@;
    reveal_strlit("<rect");
    if a.len() == 0 {
        assert(a + b =~= b);
    } else {
        assert((a + b).skip(1) =~= a.skip(1) + b);
        lemma_occurrences_apart(a.skip(1), b);
        if word.is_prefix_of(a) {
            assert(word =~= (a + b).take(5));
        }
        if word.is_prefix_of(a + b) {
            if a.len() < 5 {
                assert(word[a.len() - 1] == (a + b)[a.len() - 1]);
            }
            assert(word =~= a.take(5));
        }
    }
}

proof fn lemma_no_occurrences(s: Seq<char>, word: Seq<char>)
    requires
        word.len() > 0,
        forall|i: int| 0 <= i < s.len() ==> #[trigger] s[i] != word[0],
    ensures
        occurrences(s, word) == 0,
    decreases s.len(),
{
    if s.len() > 0 {
        lemma_no_occurrences(s.skip(1), word);
        if word.is_prefix_of(s) {
            assert(word[0] == s[0]);
        }
    }
}

/// A rectangle of written lengths begins one rectangle.
proof fn lemma_rectangle(
    x: Seq<char>,
    y: Seq<char>,
    width: Seq<char>,
    height: Seq<char>,
    radius: Seq<char>,
    fill: Seq<char>,
)
    requires
        is_length(x),
        is_length(y),
        is_length(width),
        is_length(height),
        is_length(radius),
        is_plain(fill),
    ensures
        occurrences(rectangle(x, y, width, height, radius, fill), "<rect"@) == 1,
        ends_apart(rectangle(x, y, width, height, radius, fill)),
        !rectangle(x, y, width, height, radius, fill).contains('N'),
{
    reveal_strlit("<rect");
    reveal_strlit("  <rect x=\"");
    reveal_strlit("\" y=\"");
    reveal_strlit("\" width=\"");
    reveal_strlit("\" height=\"");
    reveal_strlit("\" rx=\"");
    reveal_strlit("\" fill=\"");
    reveal_strlit("\"/>\n");
    let word = "<rect"@;
    let start = "  <rect x=\""@;
    let rest = x + "\" y=\""@ + y + "\" width=\""@ + width + "\" height=\""@ + height
        + "\" rx=\""@ + radius + "\" fill=\""@ + fill + "\"/>\n"@;
    let all = rectangle(x, y, width, height, radius, fill);
    assert(all =~= start + rest);
    assert(is_plain(rest));
    lemma_no_occurrences(rest, word);
    assert(ends_apart(start));
    lemma_occurrences_apart(start, rest);
    assert(occurrences(start, word) == 1) by {
        let tail = start.skip(3);
        assert(start[2] == '<');
        assert(start.skip(1).skip(1).skip(1) =~= tail);
        lemma_no_occurrences(tail, word);
        assert(word =~= start.skip(1).skip(1).take(5));
        assert(!word.is_prefix_of(start.skip(1))) by {
            assert(start.skip(1)[0] == ' ');
        }
        assert(!word.is_prefix_of(start)) by {
            assert(start[0] == ' ');
        }
        reveal_with_fuel(occurrences, 4);
    }
    assert(all.last() == '\n');
}

proof fn lemma_bars(bars: Seq<Bar>)
    requires
        forall|i: int| 0 <= i < bars.len() ==> bar_is_written(#[trigger] bars[i]),
    ensures
        occurrences(bars_markup(bars), "<rect"@) == bars.len(),
        ends_apart(bars_markup(bars)),
        !bars_markup(bars).contains('N'),
    decreases bars.len(),
{
    if bars.len() > 0 {
        let bar = bars.last();
        lemma_bars(bars.drop_last());
        assert(bar_is_written(bars[bars.len() - 1]));
        reveal_strlit("#5cdbb5");
        lemma_rectangle(bar.x@, bar.y@, bar.width@, bar.height@, bar.radius@, "#5cdbb5"@);
        lemma_occurrences_apart(bars_markup(bars.drop_last()), bar_markup(bar));
        reveal_strlit("\"/>\n");
    }
}

/// The drawing has a rectangle for the slab and one for each of the seven bars. It
/// opens and closes as vector art does, and no length in it is missing.
pub proof fn law_the_mark_has_a_rectangle_for_every_shape(slab: Slab, bars: Seq<Bar>)
    requires
        bars.len() == BARS,
        slab_is_written(slab),
        forall|i: int| 0 <= i < bars.len() ==> bar_is_written(#[trigger] bars[i]),
    ensures
        occurrences(drawing(slab, bars), "<rect"@) == 8,
        "<svg"@.is_prefix_of(drawing(slab, bars)),
        "</svg>\n"@.is_suffix_of(drawing(slab, bars)),
        occurrences(drawing(slab, bars), "NaN"@) == 0,
{
    let head = "<svg xmlns=\"http://www.w3.org/2000/svg\" width=\"256\" height=\"256\" viewBox=\"0 0 256 256\">\n"@;
    let tail = "</svg>\n"@;
    let first = slab_markup(slab);
    let others = bars_markup(bars);
    let word = "<rect"@;
    reveal_strlit("#121317");
    reveal_strlit("<svg");
    reveal_strlit("</svg>\n");
    reveal_strlit("<rect");
    reveal_strlit("NaN");
    reveal_strlit("<svg xmlns=\"http://www.w3.org/2000/svg\" width=\"256\" height=\"256\" viewBox=\"0 0 256 256\">\n");
    lemma_rectangle(slab.inset@, slab.inset@, slab.size@, slab.size@, slab.radius@, "#121317"@);
    lemma_bars(bars);
    assert(is_plain(head.skip(1)));
    assert(is_plain(tail.skip(1)));
    lemma_no_occurrences(head.skip(1), word);
    lemma_no_occurrences(tail.skip(1), word);
    assert(!word.is_prefix_of(head)) by {
        assert(head[1] == 's' && word[1] == 'r');
        if word.is_prefix_of(head) {
            assert(word[1] == head[1]);
        }
    }
    assert(!word.is_prefix_of(tail)) by {
        assert(tail[1] == '/');
    }
    assert(ends_apart(head));
    assert(drawing(slab, bars) =~= head + (first + (others + tail)));
    lemma_occurrences_apart(others, tail);
    lemma_occurrences_apart(first, others + tail);
    lemma_occurrences_apart(head, first + (others + tail));
    let all = drawing(slab, bars);
    assert("<svg"@ =~= all.take(4));
    assert(tail =~= all.skip(all.len() - tail.len()));
    assert forall|i: int| 0 <= i < all.len() implies #[trigger] all[i] != 'N' by {
        let a = head.len() as int;
        let b = a + first.len();
        let c = b + others.len();
        if i < a {
            assert(i == 0 || head.skip(1)[i - 1] == all[i]);
        } else if i < b {
            assert(first[i - a] == all[i]);
        } else if i < c {
            assert(others[i - b] == all[i]);
        } else {
            assert(i == c || tail.skip(1)[i - c - 1] == all[i]);
        }
    }
    lemma_no_occurrences(all, "NaN"@);
}

/// A channel is mixed to the nearest: all of one colour where it covers nothing, all of
/// the other where it covers everything, and in between in proportion.
pub proof fn law_channels_mix_in_proportion(under: nat, over: nat, part: nat, whole: nat)
    requires
        0 < whole,
        part <= whole,
    ensures
        mixed(under, over, 0, whole) == under,
        mixed(under, over, whole, whole) == over,
        2 * whole * mixed(under, over, part, whole) <= 2 * (under * (whole - part) + over * part)
            + whole,
        2 * (under * (whole - part) + over * part) < 2 * whole * mixed(under, over, part, whole)
            + whole,
{
    let w = whole as int;
    let sum = 2 * (under * (whole - part) as nat + over * part) + whole;
    lemma_nearest(sum as int, w);
    lemma_nearest((2 * (under * whole + over * 0) + whole) as int, w);
    lemma_nearest((2 * (under * 0 + over * whole) + whole) as int, w);
    assert(over * 0 == 0 && under * 0 == 0);
    let a = mixed(under, over, 0, whole) as int;
    let b = mixed(under, over, whole, whole) as int;
    assert(a == under) by (nonlinear_arith)
        requires
            w > 0,
            2 * w * a <= 2 * (under * w) + w < 2 * w * a + 2 * w,
    ;
    assert(b == over) by (nonlinear_arith)
        requires
            w > 0,
            2 * w * b <= 2 * (over * w) + w < 2 * w * b + 2 * w,
    ;
}

proof fn lemma_nearest(sum: int, w: int)
    requires
        w > 0,
        sum >= 0,
    ensures
        2 * w * (sum / (2 * w)) <= sum < 2 * w * (sum / (2 * w)) + 2 * w,
{
    vstd::arithmetic::div_mod::lemma_fundamental_div_mod(sum, 2 * w);
    vstd::arithmetic::div_mod::lemma_mod_bound(sum, 2 * w);
}

/// The colours: the mark alone is drawn in its own colour as opaque as it covers. On a
/// tile a pixel is as opaque as the mark or the slab covers it, in the mark's colour
/// where the mark covers all of that and in the slab's where it covers none.
pub proof fn law_the_colours_of_the_mark(cover: Cover)
    requires
        cover.valid(),
    ensures
        colour(cover, false) == (Pixel {
            r: 92,
            g: 219,
            b: 181,
            a: opacity(cover.mark as nat) as u8,
        }),
        colour(cover, true).a == opacity(
            if cover.mark < cover.slab {
                cover.slab as nat
            } else {
                cover.mark as nat
            },
        ),
        cover.mark == 0 ==> colour(cover, true).r == 18 && colour(cover, true).g == 19 && colour(
            cover,
            true,
        ).b == 23,
        cover.mark >= cover.slab && cover.mark > 0 ==> colour(cover, true).r == 92 && colour(
            cover,
            true,
        ).g == 219 && colour(cover, true).b == 181,
        forall|n: nat| n <= 9 ==> 18 * #[trigger] opacity(n) <= 510 * n + 9 && 510 * n + 9 < 18
            * opacity(n) + 18,
{
    let any = cover.any();
    if any > 0 {
        law_channels_mix_in_proportion(18, 92, cover.mark as nat, any);
        law_channels_mix_in_proportion(19, 219, cover.mark as nat, any);
        law_channels_mix_in_proportion(23, 181, cover.mark as nat, any);
    }
    assert(opacity(any) <= 255);
}

/// Each shape is drawn where it is and as large as it is, in its own colour: the slab
/// is as far from the top as from the side and as high as it is wide.
pub proof fn law_where_the_shapes_are_drawn(slab: Slab, bar: Bar, bars: Seq<Bar>)
    ensures
        slab_markup(slab) == "  <rect x=\""@ + slab.inset@ + "\" y=\""@ + slab.inset@
            + "\" width=\""@ + slab.size@ + "\" height=\""@ + slab.size@ + "\" rx=\""@
            + slab.radius@ + "\" fill=\""@ + "#121317"@ + "\"/>\n"@,
        bar_markup(bar) == "  <rect x=\""@ + bar.x@ + "\" y=\""@ + bar.y@ + "\" width=\""@
            + bar.width@ + "\" height=\""@ + bar.height@ + "\" rx=\""@ + bar.radius@
            + "\" fill=\""@ + "#5cdbb5"@ + "\"/>\n"@,
        bars_markup(Seq::empty()) == Seq::<char>::empty(),
        bars_markup(bars.push(bar)) == bars_markup(bars) + bar_markup(bar),
{
    assert(bars.push(bar).drop_last() =~= bars);
}

} // verus!
