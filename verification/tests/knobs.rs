//! The knobs file: the shape the bench writes parses and describes
//! itself with its sources; what is not known is refused by name; a
//! fitted knob without its residual is refused; the RAM fill reaches
//! the work RAM.

use nes_console::console::Alignment;
use nes_console::knobs::{Knobs, Number, SourceKind, WarmthCurve};
use nes_console::sram::Tmm2115;

const FILE: &str = r#"
# runs/20260918-000521/knobs.toml
[alignment]
cpu_phase = 4
ppu_phase = 3
source = "measured"
by = "v2a03-sim clk-phase, v2c02-sim clk-phase"   # the dies' own recipes

[capture]
scale_v_per_div = 0.2
offset_v = -0.5
channel = 3
source = "measured"
by = "20260918-000521"
"#;

/// A number as f64, as whoever computes with it reads it.
fn value(n: &Number) -> f64 {
    match n {
        Number::Int(i) => *i as f64,
        Number::Float(t) => t.parse().unwrap(),
    }
}

#[test]
fn the_benchs_file_parses_and_names_its_sources() {
    let k = Knobs::parse(FILE, "knobs.toml").unwrap();
    assert_eq!(k.alignment(), Alignment { cpu_phase: 4, ppu_phase: 3 });
    let c = k.capture.as_ref().unwrap();
    assert_eq!((c.channel, value(&c.scale_v_per_div), value(&c.offset_v)), (3, 0.2, -0.5));
    let d = k.describe();
    assert!(d.contains("measured by v2a03-sim clk-phase"), "{d}");
    assert!(d.contains("capture CH3 at 0.2 V/div, offset -0.5 V, measured by 20260918-000521"), "{d}");
}

#[test]
fn an_empty_file_is_the_defaults() {
    let k = Knobs::parse("# nothing set\n", "empty.toml").unwrap();
    assert_eq!(k.alignment(), Alignment::default());
    assert!(k.capture.is_none());
}

#[test]
fn what_is_not_known_is_refused_by_name() {
    let refused = |text: &str| Knobs::parse(text, "k.toml").unwrap_err();
    // A key the reader does not know: a typo cannot run the defaults.
    let e = refused("[alignment]\ncpu_phase = 4\nppu_phaze = 3\nsource = \"measured\"\nby = \"x\"\n");
    assert!(e.contains("`ppu_phaze`") && e.contains("cpu_phase, ppu_phase"), "{e}");
    // A table it does not know.
    let e = refused("[reset]\nhold = 1\nsource = \"authored\"\nby = \"x\"\n");
    assert!(e.contains("[reset]"), "{e}");
    // No source, no by, a source that is not one of the three.
    let e = refused("[alignment]\ncpu_phase = 4\nppu_phase = 3\nby = \"x\"\n");
    assert!(e.contains("no `source`"), "{e}");
    let e = refused("[alignment]\ncpu_phase = 4\nppu_phase = 3\nsource = \"measured\"\n");
    assert!(e.contains("no `by`"), "{e}");
    let e = refused("[alignment]\ncpu_phase = 4\nppu_phase = 3\nsource = \"guessed\"\nby = \"x\"\n");
    assert!(e.contains("\"guessed\""), "{e}");
    // Out of range, the wrong type, a key before any table, a duplicate.
    let e = refused("[alignment]\ncpu_phase = 24\nppu_phase = 3\nsource = \"measured\"\nby = \"x\"\n");
    assert!(e.contains("not in 0..24"), "{e}");
    let e = refused("[alignment]\ncpu_phase = \"4\"\nppu_phase = 3\nsource = \"measured\"\nby = \"x\"\n");
    assert!(e.contains("a string, not an integer"), "{e}");
    let e = refused("cpu_phase = 4\n");
    assert!(e.contains("before any [table]"), "{e}");
    let e = refused("[capture]\nchannel = 3\nchannel = 1\n");
    assert!(e.contains("`channel` twice"), "{e}");
}

#[test]
fn a_fitted_knob_carries_its_residual() {
    let base = "[capture]\nscale_v_per_div = 0.2\noffset_v = -0.5\nchannel = 3\n";
    let e = Knobs::parse(&format!("{base}source = \"fitted\"\nby = \"20260918-000521\"\n"), "k.toml").unwrap_err();
    assert!(e.contains("fitted and carries no `residual`"), "{e}");
    let k = Knobs::parse(&format!("{base}source = \"fitted\"\nby = \"20260918-000521\"\nresidual = 0.009\n"), "k.toml").unwrap();
    assert!(k.describe().contains("fitted by 20260918-000521 (residual 0.009)"), "{}", k.describe());
    let e = Knobs::parse(&format!("{base}source = \"measured\"\nby = \"x\"\nresidual = 0.1\n"), "k.toml").unwrap_err();
    assert!(e.contains("not fitted"), "{e}");
}

#[test]
fn the_refusals_read_in_full() {
    let refused = |text: &str| Knobs::parse(text, "k.toml").unwrap_err();
    assert_eq!(refused("[alignment\n"), "k.toml: line 1: a table header without its ']'");
    assert_eq!(refused("[ram]\n[ram]\n"), "k.toml: line 2: table [ram] twice");
    assert_eq!(refused("\n[ram]\njust words\n"), "k.toml: line 3: not `key = value`");
    assert_eq!(refused("[ram]\nfill = \"ff\n"), "k.toml: line 2: unterminated string");
    assert_eq!(refused("[ram]\nfill = \"ff\" x\n"), "k.toml: line 2: text after the string");
    assert_eq!(refused("[ram]\nfill = 0x10\n"), "k.toml: line 2: \"0x10\" is not a string, an integer, a float or a boolean");
    assert_eq!(refused("[ram]\nfill = 1\nseed = 2\nsource = \"authored\"\nby = \"x\"\n"), "k.toml: [ram] carries both `fill` and `seed`: one pattern");
    assert_eq!(refused("[ram]\nsource = \"authored\"\nby = \"x\"\n"), "k.toml: [ram] has neither `fill` nor `seed`");
    assert_eq!(refused("[ram]\nfill = -1\n"), "k.toml: [ram] `fill` -1 is not a byte");
    assert_eq!(refused("[ram]\nseed = 0\n"), "k.toml: [ram] `seed` 0 is not a nonzero 32-bit value");
    assert_eq!(refused("[ram]\nseed = 4294967296\n"), "k.toml: [ram] `seed` 4294967296 is not a nonzero 32-bit value");
    assert_eq!(refused("[capture]\nchannel = 5\n"), "k.toml: [capture] `channel` 5 is not 1..4");
    assert_eq!(refused("[capture]\nchannel = 2\noffset_v = 1\nsource = \"measured\"\nby = \"x\"\n"), "k.toml: [capture] has no `scale_v_per_div`");
    assert_eq!(refused("[capture]\nchannel = 2\nscale_v_per_div = true\n"), "k.toml: [capture] `scale_v_per_div` is a boolean, not a number");
    assert_eq!(refused("[alignment]\ncpu_phase = 4\nppu_phase = -1\n"), "k.toml: [alignment] `ppu_phase` -1 is not in 0..8");
    assert_eq!(refused("[alignment]\ncpu_phase = 4\nppu_phase = 3\nsource = \"measured\"\nby = \"  \"\n"), "k.toml: [alignment] `by` is empty: name the run, the probe or the document");
    assert_eq!(refused("[alignment]\ncpu_phase = 4\nppu_phase = 3\nsource = 1\nby = \"x\"\n"), "k.toml: [alignment] `source` is an integer, not a string");
    assert_eq!(refused("[colour]\n"), "k.toml: a table this reader does not know: [colour] (it knows [alignment], [capture], [ram], [warmth], [warmth_curve])");
    assert_eq!(refused("[warmth]\nseconds_on = -5\n"), "k.toml: [warmth] `seconds_on` -5 is not zero or more");
    assert_eq!(refused("[warmth]\nseconds_on = -1e3\n"), "k.toml: [warmth] `seconds_on` -1e3 is not zero or more");
    assert_eq!(refused("[warmth]\nseconds_on = nan\n"), "k.toml: [warmth] `seconds_on` nan is not zero or more");
    assert_eq!(refused("[warmth_curve]\ndepth = 0.02\ntau_s = 0.0e5\n"), "k.toml: [warmth_curve] `tau_s` 0.0e5 is not positive");
    assert_eq!(refused("[warmth_curve]\ndepth = 0.02\ntau_s = -3\n"), "k.toml: [warmth_curve] `tau_s` -3 is not positive");
    assert_eq!(refused("[warmth_curve]\ndepth = 0.02\nseconds_on = 3\n"), "k.toml: [warmth_curve] has a key this reader does not know: `seconds_on` (it knows depth, tau_s)");
    assert_eq!(refused("[ram]\nfill = 1\ncolour = 2\n"), "k.toml: [ram] has a key this reader does not know: `colour` (it knows fill, seed)");
}

#[test]
fn comments_strings_and_numbers_as_toml_writes_them() {
    // A '#' inside a string is part of it; CR LF endings are lines.
    let k = Knobs::parse("[ram]\r\nfill = 0   # zero\r\nsource = \"authored\"\r\nby = \"run #7\"\r\n", "k.toml").unwrap();
    let (f, s) = k.ram_fill.as_ref().unwrap();
    assert_eq!((*f, s.kind, s.by.as_str()), (0, SourceKind::Authored, "run #7"));
    // Floats as f64::from_str takes them, integers kept whole.
    let text = "[capture]\nscale_v_per_div = 1e-3\noffset_v = +7\nchannel = 1\nsource = \"fitted\"\nby = \"x\"\nresidual = .5\n";
    let k = Knobs::parse(text, "k.toml").unwrap();
    let c = k.capture.as_ref().unwrap();
    assert_eq!(c.scale_v_per_div, Number::Float("1e-3".to_string()));
    assert_eq!(c.offset_v, Number::Int(7));
    assert_eq!(c.source.residual, Some(Number::Float(".5".to_string())));
    assert_eq!(value(&c.scale_v_per_div), 0.001);
    // An integer too big for i64 is a float, as the two parsers make it.
    let k = Knobs::parse("[capture]\nscale_v_per_div = 99999999999999999999\noffset_v = 0\nchannel = 1\nsource = \"measured\"\nby = \"x\"\n", "k.toml").unwrap();
    assert_eq!(k.capture.unwrap().scale_v_per_div, Number::Float("99999999999999999999".to_string()));
}

#[test]
fn the_describe_lines_name_every_table() {
    let k = Knobs::parse("[ram]\nfill = 255\nsource = \"authored\"\nby = \"the bench's cold-boot finding\"\n", "k.toml").unwrap();
    assert_eq!(
        k.describe(),
        "knobs k.toml:\n  alignment: not in the file; the measured default\n  ram fill ff at power-on, authored by the bench's cold-boot finding"
    );
    let k = Knobs::parse("[ram]\nseed = 12345\nsource = \"authored\"\nby = \"x\"\n", "k.toml").unwrap();
    assert!(k.describe().ends_with("ram pattern from seed 12345 at power-on, authored by x"), "{}", k.describe());
}

#[test]
fn the_ram_fill_knob_reaches_the_work_ram() {
    let k = Knobs::parse("[ram]\nfill = 255\nsource = \"authored\"\nby = \"the bench's cold-boot finding\"\n", "k.toml").unwrap();
    assert!(k.describe().contains("ram fill ff at power-on, authored by"), "{}", k.describe());
    let mut wram = Tmm2115::new();
    k.apply(&mut wram);
    assert_eq!((wram.read(0x0000), wram.read(0x07ff)), (0xff, 0xff), "the fill did not reach the work RAM");
    let e = Knobs::parse("[ram]\nfill = 256\nsource = \"authored\"\nby = \"x\"\n", "k.toml").unwrap_err();
    assert!(e.contains("not a byte"), "{e}");
}

#[test]
fn the_seed_lays_down_the_xorshift_pattern() {
    let k = Knobs::parse("[ram]\nseed = 1\nsource = \"authored\"\nby = \"x\"\n", "k.toml").unwrap();
    let mut wram = Tmm2115::new();
    k.apply(&mut wram);
    let mut x: u32 = 1;
    for a in 0..0x800u16 {
        x ^= x << 13;
        x ^= x >> 17;
        x ^= x << 5;
        assert_eq!(wram.read(a), (x >> 24) as u8, "address {a:03x}");
    }
    // The first state after 1 is 270369: its top byte is 0.
    assert_eq!(wram.read(0), 0);
}

#[test]
fn the_alignment_knob_is_what_the_file_says() {
    let file = |cpu: u8| format!("[alignment]\ncpu_phase = {cpu}\nppu_phase = 3\nsource = \"measured\"\nby = \"test\"\n");
    let a = Knobs::parse(&file(4), "a.toml").unwrap().alignment();
    let b = Knobs::parse(&file(16), "b.toml").unwrap().alignment();
    assert_eq!(a, Alignment { cpu_phase: 4, ppu_phase: 3 });
    assert_eq!(b, Alignment { cpu_phase: 16, ppu_phase: 3 });
}

#[test]
fn a_number_is_what_the_two_parsers_take() {
    let scale = |v: &str| {
        let text = format!("[capture]\nscale_v_per_div = {v}\noffset_v = 0\nchannel = 1\nsource = \"measured\"\nby = \"x\"\n");
        Knobs::parse(&text, "k.toml").map(|k| k.capture.unwrap().scale_v_per_div)
    };
    for f in ["inf", "-Infinity", "NaN", "1.", ".5e3", "2E-2", "+0.5"] {
        assert_eq!(scale(f), Ok(Number::Float(f.to_string())), "{f}");
        assert!(f.parse::<f64>().is_ok(), "{f}");
    }
    for bad in ["1e", "+", ".", "e5", "1.2.3", "0x1p3", "1_000"] {
        let e = scale(bad).unwrap_err();
        assert!(e.ends_with("is not a string, an integer, a float or a boolean"), "{bad}: {e}");
        assert!(bad.parse::<f64>().is_err() && bad.parse::<i64>().is_err(), "{bad}");
    }
    assert_eq!(scale("-9223372036854775808"), Ok(Number::Int(i64::MIN)));
    assert_eq!(scale("9223372036854775808"), Ok(Number::Float("9223372036854775808".to_string())));
}

/// A number of the knobs file as the float it names.
fn number(n: &Number) -> f64 {
    match n {
        Number::Int(i) => *i as f64,
        Number::Float(t) => t.parse().unwrap(),
    }
}

/// The gain on the curve after `seconds` on: one cold, one less the
/// depth on the plateau.
fn curve_gain(c: &WarmthCurve, seconds: f64) -> f64 {
    1.0 - number(&c.depth) * (1.0 - (-seconds / number(&c.tau_s)).exp())
}

/// The gain the seconds on give, when the file carries both.
fn warmth_gain(k: &Knobs) -> Option<f64> {
    match (&k.warmth, &k.warmth_curve) {
        (Some((s, _)), Some(c)) => Some(curve_gain(c, number(s))),
        _ => None,
    }
}

const WARM: &str = "[warmth]\nseconds_on = 2708\nsource = \"measured\"\nby = \"20260918-203018 head.log\"\n\n[warmth_curve]\ndepth = 0.0214\ntau_s = 1050\nsource = \"fitted\"\nby = \"warm-up series 20260918-194516..203018\"\nresidual = 0.001\n";

#[test]
fn the_warmth_is_the_seconds_on_the_curve() {
    let k = Knobs::parse(WARM, "k.toml").unwrap();
    let g = warmth_gain(&k).unwrap();
    let want = 1.0 - 0.0214 * (1.0 - (-2708.0f64 / 1050.0).exp());
    assert!((g - want).abs() < 1e-12, "{g} against {want}");
    assert!(k.describe().contains("warmth 2708 s on, measured by 20260918-203018 head.log"), "{}", k.describe());
    assert!(k.describe().contains("fitted by warm-up series 20260918-194516..203018 (residual 0.001)"), "{}", k.describe());
    // Cold is gain one; the plateau is one less the depth.
    let c = k.warmth_curve.as_ref().unwrap();
    assert_eq!(curve_gain(c, 0.0), 1.0);
    assert!((curve_gain(c, 1e9) - (1.0 - 0.0214)).abs() < 1e-12);
    // The seconds without the curve say nothing, and are refused.
    let e = Knobs::parse("[warmth]\nseconds_on = 5\nsource = \"measured\"\nby = \"x\"\n", "k.toml").unwrap_err();
    assert!(e.contains("without [warmth_curve]"), "{e}");
    // The curve alone is kept and acts on nothing.
    let only = WARM.split("[warmth_curve]").nth(1).unwrap();
    let k = Knobs::parse(&format!("[warmth_curve]{only}"), "k.toml").unwrap();
    assert!(k.warmth_curve.is_some() && warmth_gain(&k).is_none());
    let e = Knobs::parse("[warmth_curve]\ndepth = 0.02\ntau_s = 0\nsource = \"authored\"\nby = \"x\"\n", "k.toml").unwrap_err();
    assert!(e.contains("not positive"), "{e}");
}

#[test]
fn the_warmth_describes_itself_in_either_order() {
    // The curve may come first; the check for the curve waits for the end.
    let (a, b) = WARM.split_at(WARM.find("[warmth_curve]").unwrap());
    let k = Knobs::parse(&format!("{b}\n{a}"), "k.toml").unwrap();
    let d = k.describe();
    assert!(d.ends_with("\n  warmth 2708 s on, measured by 20260918-203018 head.log\n  warmth curve depth 0.0214, tau 1050 s, fitted by warm-up series 20260918-194516..203018 (residual 0.001)"), "{d}");
    let c = k.warmth_curve.unwrap();
    assert_eq!((c.depth, c.tau_s), (Number::Float("0.0214".to_string()), Number::Int(1050)));
    // A float time constant that is not zero passes; one past the
    // exponent's zeros is still positive.
    assert!(Knobs::parse("[warmth_curve]\ndepth = 0\ntau_s = 0.001e2\nsource = \"authored\"\nby = \"x\"\n", "k.toml").is_ok());
    assert!(Knobs::parse("[warmth]\nseconds_on = -0.0\nsource = \"authored\"\nby = \"x\"\n[warmth_curve]\ndepth = 0\ntau_s = inf\nsource = \"authored\"\nby = \"x\"\n", "k.toml").is_ok());
}
