use murmur::config::AsrEngine;
use murmur::icon::{argb, pixel, rgba, svg, Bar as Stripe, Cover, Pixel, Slab, BARS, SUPERSAMPLE};
use murmur::listen::Backend;
use murmur::overlay::{config_path, transcriber, Bar, Message, Murmur, Phase};
use murmur::session::{Hud, Mode};
use murmur::single::Single;
use murmur::time::Millis;
use murmur::tray::{Entry, Request, Tray};

fn ready() -> Murmur {
    let mut app = Murmur::default();
    app.update(Message::Ready {
        trigger: "RIGHTCTRL".into(),
        microphone: "mic".into(),
        transcriber: "parakeet".into(),
    });
    app
}

fn level(value: f32) -> Single {
    Single::from_bits(value.to_bits())
}

#[test]
fn live_text_does_not_change_the_phase() {
    let listening = Phase::Listening { locked: false };
    let after = Phase::from_hud(&Hud::Partial { text: "hello".into() }, &listening);
    assert_eq!(after, listening, "the meter would vanish on the first word");
}

#[test]
fn every_hud_state_maps_somewhere_sensible() {
    let idle = Phase::Idle;
    assert_eq!(Phase::from_hud(&Hud::Hidden, &idle), Phase::Idle);
    assert_eq!(Phase::from_hud(&Hud::Thinking, &idle), Phase::Thinking);
    assert_eq!(
        Phase::from_hud(&Hud::Listening { mode: Mode::Locked }, &idle),
        Phase::Listening { locked: true }
    );
    assert!(matches!(
        Phase::from_hud(&Hud::Error { message: "x".into() }, &idle),
        Phase::Failed(_)
    ));
}

#[test]
fn live_text_is_kept_while_listening_and_dropped_afterwards() {
    let mut app = ready();
    app.update(Message::Hud(Hud::Listening { mode: Mode::Hold }));
    app.update(Message::Hud(Hud::Partial { text: "hello there".into() }));
    assert_eq!(app.partial(), "hello there");

    app.update(Message::Hud(Hud::Thinking));
    assert!(app.partial().is_empty(), "live text outlived the utterance");
}

#[test]
fn a_new_utterance_clears_the_previous_result() {
    let mut app = ready();
    app.update(Message::Emitted("first".into()));
    assert!(app.landed().is_some());

    app.update(Message::Hud(Hud::Listening { mode: Mode::Hold }));
    assert!(app.landed().is_none(), "the last result lingered into the next dictation");
}

#[test]
fn timing_attaches_to_the_text_it_belongs_to() {
    let mut app = ready();
    app.update(Message::Emitted("done".into()));
    app.update(Message::Completed(Millis(120)));

    let landed = app.landed().as_ref().expect("a result");
    assert_eq!(landed.text, "done");
    assert_eq!(landed.release_to_text, Some(Millis(120)));
}

#[test]
fn timing_without_text_is_ignored_rather_than_shown_alone() {
    let mut app = ready();
    app.update(Message::Completed(Millis(120)));
    assert!(app.landed().is_none());
}

#[test]
fn a_fatal_error_replaces_whatever_was_showing() {
    let mut app = ready();
    app.update(Message::Hud(Hud::Listening { mode: Mode::Hold }));
    app.update(Message::Fatal("no microphone".into()));
    assert!(matches!(app.phase(), Phase::Failed(_)));
}

#[test]
fn every_phase_renders_without_panicking() {
    let mut app = Murmur::default();
    assert_eq!(app.view_bar(), Bar::Hint("starting\u{2026}".into()));
    let mut bars = Vec::new();
    for message in [
        Message::Ready { trigger: "RIGHTCTRL".into(), microphone: "m".into(), transcriber: "t".into() },
        Message::Hud(Hud::Listening { mode: Mode::Hold }),
        Message::Level(level(0.4)),
        Message::Hud(Hud::Partial { text: "words".into() }),
        Message::Hud(Hud::Listening { mode: Mode::Locked }),
        Message::Hud(Hud::Thinking),
        Message::Emitted("done".into()),
        Message::Completed(Millis(99)),
        Message::Hud(Hud::Hidden),
        Message::Hud(Hud::Error { message: "boom".into() }),
    ] {
        app.update(message);
        bars.push(app.view_bar());
    }
    let silent = level(0.0);
    let loud = level(0.4);
    let hands_free = "hands-free \u{2014} press again to stop";
    assert_eq!(
        bars,
        vec![
            Bar::Idle("hold RIGHTCTRL and speak".into()),
            Bar::Listening { level: Single { mant: 0, exp: 0 }, words: None, hint: "speak\u{2026}" },
            Bar::Listening { level: loud, words: None, hint: "speak\u{2026}" },
            Bar::Listening { level: loud, words: Some("words".into()), hint: "speak\u{2026}" },
            Bar::Listening { level: loud, words: None, hint: hands_free },
            Bar::Thinking("transcribing\u{2026}".into()),
            Bar::Thinking("transcribing\u{2026}".into()),
            Bar::Thinking("transcribing\u{2026}".into()),
            Bar::Landed { text: "done".into(), timing: "99ms".into() },
            Bar::Failed("boom".into()),
        ]
    );
    assert_eq!(silent.mant, 0);
    assert_eq!(app.title(), "Murmur");
}

#[test]
fn the_overlay_knows_where_its_settings_are_and_what_it_can_run() {
    assert_eq!(config_path(None, Some("/home/me".into())), "/home/me/.config/murmur/config.toml");
    assert_eq!(transcriber(AsrEngine::Parakeet), Ok(Backend::Parakeet));
    assert_eq!(transcriber(AsrEngine::Mock), Ok(Backend::Mock));
    assert_eq!(
        transcriber(AsrEngine::Whisper),
        Err("the Whisper engine cannot be used for dictation yet".into())
    );
}

#[test]
fn clicking_the_icon_toggles_the_overlay_both_ways() {
    let mut tray = Tray::new();
    assert_eq!(tray.activate(), Request::Hide);
    assert!(!tray.is_visible());
    assert_eq!(tray.activate(), Request::Show);
}

#[test]
fn the_menu_offers_a_way_out_as_well_as_a_way_back() {
    let mut tray = Tray::new();
    let labels = tray.menu();
    assert!(labels.iter().any(|l| l.contains("Show")), "{labels:?}");
    assert!(labels.iter().any(|l| l.contains("Quit")), "{labels:?}");
    assert_eq!(tray.chosen(Entry::Quit), Request::Quit);
    assert_eq!(tray.chosen(Entry::Toggle), Request::Hide);
}

#[test]
fn the_panel_icon_is_square_and_not_blank() {
    let size = 22u32;
    let data = argb(size, false, &cover(size));
    assert_eq!(data.len(), (size * size * 4) as usize);
    assert!(data.chunks_exact(4).any(|p| p[0] > 0), "the icon is fully transparent");
}

#[test]
fn the_tooltip_says_what_it_is_doing() {
    let mut tray = Tray::new();
    assert!(tray.tool_tip().contains("speak"));

    tray.set_listening(true);
    assert!(tray.tool_tip().contains("listening"));
    assert_eq!((tray.id(), tray.title()), ("murmur", "Murmur"));
}

const BAR_WIDTH: f32 = 0.072;
const BAR_GAP: f32 = 0.045;

/// Where a bar of the mark starts, and how tall it is.
fn bar(index: usize, extent: f32) -> (f32, f32) {
    let (width, gap) = (extent * BAR_WIDTH, extent * BAR_GAP);
    let left = (extent - (BARS as f32 * width + (BARS - 1) as f32 * gap)) / 2.0;
    let position = (index as f32 + 0.5) / BARS as f32;
    let profile = (std::f32::consts::PI * position).sin().max(0.0).powf(0.6);
    (left + index as f32 * (width + gap), extent * (0.16 + 0.58 * profile))
}

fn in_bars(px: f32, py: f32, extent: f32) -> bool {
    let radius = extent * BAR_WIDTH / 2.0;
    (0..BARS).any(|i| {
        let (x0, height) = bar(i, extent);
        let y0 = (extent - height) / 2.0;
        let within = px >= x0 && px <= x0 + 2.0 * radius && py >= y0 && py <= y0 + height;
        let y = py.clamp(y0 + radius, y0 + height - radius);
        within && (px - x0 - radius).powi(2) + (py - y).powi(2) <= radius.powi(2) + 1e-3
    })
}

fn in_slab(px: f32, py: f32, extent: f32) -> bool {
    let (min, max, radius) = (extent * 0.04, extent * 0.96, extent * 0.22);
    let (cx, cy) = (px.clamp(min + radius, max - radius), py.clamp(min + radius, max - radius));
    let within = px >= min && px <= max && py >= min && py <= max;
    within && (px - cx).powi(2) + (py - cy).powi(2) <= radius.powi(2) + 1e-3
}

/// How many of each pixel's samples the mark and the slab cover.
fn cover(size: u32) -> Vec<Cover> {
    let extent = size as f32;
    let mut out = Vec::new();
    for y in 0..size {
        for x in 0..size {
            let mut counts = Cover { mark: 0, slab: 0 };
            for sy in 0..SUPERSAMPLE {
                for sx in 0..SUPERSAMPLE {
                    let px = x as f32 + (sx as f32 + 0.5) / SUPERSAMPLE as f32;
                    let py = y as f32 + (sy as f32 + 0.5) / SUPERSAMPLE as f32;
                    counts.mark += u32::from(in_bars(px, py, extent));
                    counts.slab += u32::from(in_slab(px, py, extent));
                }
            }
            out.push(counts);
        }
    }
    out
}

fn alpha_at(pixels: &[u8], size: u32, x: u32, y: u32) -> u8 {
    pixels[((y * size + x) * 4 + 3) as usize]
}

#[test]
fn the_buffer_is_exactly_the_size_asked_for() {
    for size in [16u32, 22, 48, 64, 256] {
        let cover = cover(size);
        assert_eq!(rgba(size, true, &cover).len(), (size * size * 4) as usize);
        assert_eq!(argb(size, false, &cover).len(), (size * size * 4) as usize);
    }
}

#[test]
fn the_mark_is_drawn_through_the_middle() {
    let size = 64;
    let pixels = rgba(size, false, &cover(size));
    assert_eq!(alpha_at(&pixels, size, size / 2, size / 2), 255, "the centre is empty");
}

#[test]
fn a_panel_icon_leaves_its_corners_clear() {
    let size = 64;
    let pixels = rgba(size, false, &cover(size));
    for (x, y) in [(0, 0), (size - 1, 0), (0, size - 1), (size - 1, size - 1)] {
        assert_eq!(alpha_at(&pixels, size, x, y), 0, "corner {x},{y} was painted");
    }
}

#[test]
fn a_tiled_icon_is_rounded_rather_than_square() {
    let size = 64;
    let pixels = rgba(size, true, &cover(size));
    assert_eq!(alpha_at(&pixels, size, 0, 0), 0, "the tile has square corners");
    assert_eq!(alpha_at(&pixels, size, size / 2, size / 2), 255);
}

#[test]
fn the_waveform_is_taller_in_the_middle_than_at_the_ends() {
    let size = 64;
    let pixels = rgba(size, false, &cover(size));
    let painted_rows =
        |column: u32| (0..size).filter(|y| alpha_at(&pixels, size, column, *y) > 128).count();
    let centre = (0..size).map(painted_rows).max().unwrap_or(0);
    assert!(centre > 0, "nothing was drawn");

    let first_bar = (0..size / 4).map(painted_rows).max().unwrap_or(0);
    assert!(first_bar > 0, "the outer bars are missing");
    assert!(centre > first_bar, "the mark is flat, not a waveform");
}

#[test]
fn argb_is_the_same_pixels_with_the_channels_rotated() {
    let cover = cover(16);
    let rgba = rgba(16, true, &cover);
    let argb = argb(16, true, &cover);
    for (rgba, argb) in rgba.chunks_exact(4).zip(argb.chunks_exact(4)) {
        assert_eq!(argb, [rgba[3], rgba[0], rgba[1], rgba[2]]);
    }
}

#[test]
fn the_vector_mark_has_a_bar_for_every_pixel_bar() {
    let extent = 256.0f32;
    let inset = extent * 0.04;
    let slab = Slab {
        inset: format!("{inset}"),
        size: format!("{}", extent - 2.0 * inset),
        radius: format!("{}", extent * 0.22),
    };
    let width = extent * BAR_WIDTH;
    let stripes: Vec<Stripe> = (0..BARS)
        .map(|i| {
            let (x, height) = bar(i, extent);
            Stripe {
                x: format!("{x:.2}"),
                y: format!("{:.2}", (extent - height) / 2.0),
                width: format!("{width:.2}"),
                height: format!("{height:.2}"),
                radius: format!("{:.2}", width / 2.0),
            }
        })
        .collect();
    let svg = svg(&slab, &stripes);
    assert!(svg.starts_with("<svg"), "{svg:.40}");
    assert!(svg.trim_end().ends_with("</svg>"));
    // One slab plus one rectangle per bar.
    assert_eq!(svg.matches("<rect").count(), BARS + 1);
    assert!(!svg.contains("NaN"), "the vector mark contains NaN");
    assert!(svg.contains("fill=\"#5cdbb5\"") && svg.contains("fill=\"#121317\""), "{svg}");
}

#[test]
fn tiny_sizes_still_draw_something() {
    let size = 16;
    let pixels = rgba(size, false, &cover(size));
    assert!(pixels.chunks_exact(4).any(|p| p[3] > 0), "the mark vanished at {size}px");
}

/// The colour of a pixel as floating point has it.
fn mixed(cover: Cover, tile: bool) -> Pixel {
    let (mark, slab) = (cover.mark as f32 / 9.0, cover.slab as f32 / 9.0);
    let (under, over) = ([18u8, 19, 23], [92u8, 219, 181]);
    let alpha = if tile { mark.max(slab) } else { mark };
    let amount = if !tile { 1.0 } else if alpha > 0.0 { mark / alpha } else { 0.0 };
    let mix = |a: u8, b: u8| (f32::from(a) * (1.0 - amount) + f32::from(b) * amount).round() as u8;
    Pixel {
        r: mix(under[0], over[0]),
        g: mix(under[1], over[1]),
        b: mix(under[2], over[2]),
        a: (alpha.clamp(0.0, 1.0) * 255.0).round() as u8,
    }
}

#[test]
fn every_mixture_is_the_one_floating_point_gives() {
    for mark in 0..=9 {
        for slab in 0..=9 {
            for tile in [false, true] {
                let cover = Cover { mark, slab };
                assert_eq!(pixel(cover, tile), mixed(cover, tile), "{mark} {slab} {tile}");
            }
        }
    }
}
