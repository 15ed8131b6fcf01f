use prompts::{delimiter_glyph, render_style, symbol_parts, Figures, InputStyle, Prompt, Tone};

#[test]
fn render_style_default_scale_one() {
    let (transform, scale) = render_style(InputStyle::Default);
    assert_eq!(scale, 1);
    assert_eq!(transform.render("hello", InputStyle::Default), "hello");
}

#[test]
fn render_style_password_masks() {
    let (transform, scale) = render_style(InputStyle::Password);
    assert_eq!(scale, 1);
    assert_eq!(transform.render("secret", InputStyle::Password), "******");
}

#[test]
fn render_style_invisible_empty() {
    let (transform, scale) = render_style(InputStyle::Invisible);
    assert_eq!(scale, 0);
    assert_eq!(transform.render("hidden", InputStyle::Invisible), "");
}

#[test]
fn symbol_done_contains_tick() {
    let (tone, s) = symbol_parts(&Figures::new(), true, false, false);
    assert!(!s.is_empty());
    assert_eq!((tone, s), (Tone::Green, "✔"));
}

#[test]
fn symbol_aborted_contains_cross() {
    let (tone, s) = symbol_parts(&Figures::new(), false, true, false);
    assert!(!s.is_empty());
    assert_eq!((tone, s), (Tone::Red, "✖"));
}

#[test]
fn symbol_exited_contains_cross() {
    let (tone, s) = symbol_parts(&Figures::new(), false, false, true);
    assert!(!s.is_empty());
    assert_eq!((tone, s), (Tone::Yellow, "✖"));
}

#[test]
fn symbol_pending_contains_question() {
    let (tone, s) = symbol_parts(&Figures::new(), false, false, false);
    assert!(!s.is_empty());
    assert_eq!((tone, s), (Tone::Cyan, "?"));
}

#[test]
fn delimiter_completing_and_not_differ() {
    let d_false = delimiter_glyph(&Figures::new(), false);
    let d_true = delimiter_glyph(&Figures::new(), true);
    assert!(!d_false.is_empty());
    assert!(!d_true.is_empty());
    assert_ne!(d_false, d_true);
}

#[test]
fn symbol_priority_aborted_over_exited_and_done() {
    let s_aborted = symbol_parts(&Figures::new(), true, true, false);
    let s_exited = symbol_parts(&Figures::new(), true, false, true);
    assert_eq!(s_aborted.0, Tone::Red);
    assert_eq!(s_exited.0, Tone::Yellow);
}

#[test]
fn symbol_pending_is_question_mark_without_ansi() {
    let (_, s) = symbol_parts(&Figures::new(), false, false, false);
    assert!(s.contains('?'));
}

#[test]
fn style_transform_render_empty_string_default() {
    let (t, _) = render_style(InputStyle::Default);
    assert_eq!(t.render("", InputStyle::Default), "");
}

#[test]
fn style_transform_render_empty_string_password() {
    let (t, _) = render_style(InputStyle::Password);
    assert_eq!(t.render("", InputStyle::Password), "");
}

#[test]
fn style_transform_render_empty_string_invisible() {
    let (t, _) = render_style(InputStyle::Invisible);
    assert_eq!(t.render("", InputStyle::Invisible), "");
}

#[test]
fn style_transform_password_length_matches_input() {
    let (t, _) = render_style(InputStyle::Password);
    assert_eq!(t.render("abc", InputStyle::Password).len(), 3);
    assert_eq!(t.render("xyz", InputStyle::Password), "***");
}

#[test]
fn render_style_invisible_scale_zero() {
    let (_, scale) = render_style(InputStyle::Invisible);
    assert_eq!(scale, 0);
}

#[test]
fn password_masks_each_byte() {
    let (t, _) = render_style(InputStyle::Password);
    assert_eq!(t.render("é", InputStyle::Password), "**");
}

#[test]
fn prompt_bell_writes_to_output() {
    let bell = Prompt::bell();
    assert!(!bell.is_empty());
    assert_eq!(bell, "\u{7}");
}

#[test]
fn symbol_uses_windows_glyphs() {
    let fig = Figures::for_platform(true);
    assert_eq!(symbol_parts(&fig, true, false, false), (Tone::Green, "√"));
    assert_eq!(symbol_parts(&fig, false, true, false), (Tone::Red, "×"));
    assert_eq!(delimiter_glyph(&fig, true), "...");
    assert_eq!(delimiter_glyph(&fig, false), "»");
}
