use prompts::Figures;

#[test]
fn figures_all_non_empty() {
    let f = Figures::new();
    assert!(!f.arrow_up.is_empty());
    assert!(!f.arrow_down.is_empty());
    assert!(!f.arrow_left.is_empty());
    assert!(!f.arrow_right.is_empty());
    assert!(!f.radio_on.is_empty());
    assert!(!f.radio_off.is_empty());
    assert!(!f.tick.is_empty());
    assert!(!f.cross.is_empty());
    assert!(!f.ellipsis.is_empty());
    assert!(!f.pointer_small.is_empty());
    assert!(!f.line.is_empty());
    assert!(!f.pointer.is_empty());
}

#[test]
fn figures_default_equals_new() {
    let a = Figures::default();
    let b = Figures::new();
    assert_eq!(a.tick, b.tick);
    assert_eq!(a.cross, b.cross);
}

#[test]
fn test_figures() {
    let f = Figures::new();
    assert!(!f.tick.is_empty());
    assert!(!f.cross.is_empty());
}

#[test]
fn figures_windows_set_is_ascii_where_it_matters() {
    let f = Figures::for_platform(true);
    assert_eq!(f.pointer, ">");
    assert_eq!(f.ellipsis, "...");
    assert_eq!(f.radio_on, "(*)");
    let u = Figures::for_platform(false);
    assert_eq!(u.pointer, "❯");
    assert_eq!(u.tick, "✔");
}
