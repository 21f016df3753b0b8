use gestalt::wrap_policy::default_unwrapped_terminal_cols;

#[test]
fn default_unwrapped_cols_has_floor() {
    assert_eq!(default_unwrapped_terminal_cols(24), 512);
}

#[test]
fn default_unwrapped_cols_scales_with_viewport() {
    assert_eq!(default_unwrapped_terminal_cols(96), 768);
}

#[test]
fn default_unwrapped_cols_has_ceiling() {
    assert_eq!(default_unwrapped_terminal_cols(600), 4096);
}
