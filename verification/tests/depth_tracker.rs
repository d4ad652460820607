use shaderbg::glsl_depth_tracker::GlslDepthTracker;

#[test]
fn tracker_starts_at_global_scope() {
    let tracker = GlslDepthTracker::default();
    assert!(tracker.at_global_scope());
    assert!(!tracker.in_parentheses());
    assert!(!tracker.in_square_brackets());
    assert!(!tracker.in_for_loop_initialization());
}

#[test]
fn tracker_counts_each_bracket_kind() {
    let mut tracker = GlslDepthTracker::new();
    tracker.update_brackets(b'(');
    assert!(tracker.in_parentheses());
    assert!(!tracker.at_global_scope());
    tracker.update_brackets(b')');
    assert!(!tracker.in_parentheses());
    tracker.update_brackets(b'[');
    assert!(tracker.in_square_brackets());
    tracker.update_brackets(b']');
    assert!(!tracker.in_square_brackets());
    tracker.update_brackets(b'{');
    assert!(!tracker.at_global_scope());
    tracker.update_brackets(b'}');
    assert!(tracker.at_global_scope());
}

#[test]
fn tracker_depth_never_falls_below_zero() {
    let mut tracker = GlslDepthTracker::new();
    tracker.update_brackets(b')');
    tracker.update_brackets(b'}');
    tracker.update_brackets(b']');
    assert!(tracker.at_global_scope());
    tracker.update_brackets(b'(');
    assert!(tracker.in_parentheses());
    tracker.update_brackets(b')');
    assert!(tracker.at_global_scope());
}

#[test]
fn tracker_ignores_other_bytes() {
    let mut tracker = GlslDepthTracker::new();
    for byte in [b'a', b';', b' ', b'<', 0u8, 200u8] {
        tracker.update_brackets(byte);
    }
    assert!(tracker.at_global_scope());
}

#[test]
fn tracker_follows_the_parts_of_a_for_header() {
    let mut tracker = GlslDepthTracker::new();
    tracker.update_for_loop(b';');
    assert!(!tracker.in_for_loop_initialization());
    tracker.update_brackets(b'(');
    tracker.start_for_loop_tracking();
    assert!(tracker.in_for_loop_initialization());
    tracker.update_for_loop(b'x');
    assert!(tracker.in_for_loop_initialization());
    tracker.update_for_loop(b';');
    assert!(!tracker.in_for_loop_initialization());
    tracker.update_for_loop(b';');
    tracker.update_for_loop(b';');
    tracker.update_brackets(b')');
    tracker.update_for_loop(b')');
    assert!(!tracker.in_for_loop_initialization());
    tracker.start_for_loop_tracking();
    assert!(tracker.in_for_loop_initialization());
}

#[test]
fn tracker_leaves_the_header_only_at_depth_zero() {
    let mut tracker = GlslDepthTracker::new();
    tracker.update_brackets(b'(');
    tracker.start_for_loop_tracking();
    tracker.update_brackets(b'(');
    tracker.update_brackets(b')');
    tracker.update_for_loop(b')');
    assert!(tracker.in_for_loop_initialization());
    tracker.update_brackets(b')');
    tracker.update_for_loop(b')');
    assert!(!tracker.in_for_loop_initialization());
}

#[test]
fn tracker_equality_looks_at_the_depths_only() {
    let mut a = GlslDepthTracker::new();
    let mut b = GlslDepthTracker::new();
    a.update_brackets(b'(');
    assert!(a != b);
    b.update_brackets(b'(');
    assert!(a == b);
    a.start_for_loop_tracking();
    assert!(a == b);
    b.update_brackets(b'{');
    assert!(a != b);
}
