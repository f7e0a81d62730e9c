//! The interactive interface's state machine: narrowing, selection,
//! acceptance, cancellation, and the restore-before-report discipline.

use rff::event::{Event, Key};
use rff::interface::{Conclusion, Interface, Options, SessionStep};

fn sample_candidates() -> Vec<String> {
    vec![
        "app/models/order.rb".to_string(),
        "spec/models/order_spec.rb".to_string(),
        "other_garbage.rb".to_string(),
        "Gemfile".to_string(),
        "node_modules/test/a/thing.js".to_string(),
        "vendor/bundle/ruby/gem.rb".to_string(),
    ]
}

fn start(choices: Vec<String>, initial: &str) -> Interface {
    Interface::from_opts(
        Options { choices, initial: initial.to_string() },
        80,
    )
}

fn press(iface: &mut Interface, key: Key) -> SessionStep {
    iface.handle_event(&Event::Key(key))
}

#[test]
fn typing_never_increases_match_count() {
    let mut iface = start(sample_candidates(), "");
    let mut last = iface.match_count();
    assert_eq!(last, 6);
    for ch in ['a', 'm', 'o', 'r'] {
        let step = press(&mut iface, Key::Char(ch));
        assert!(matches!(step, SessionStep::Render));
        let count = iface.match_count();
        assert!(count <= last);
        last = count;
    }
    assert_eq!(iface.match_count(), 1);
}

#[test]
fn backspace_restores_excluded_candidates() {
    let mut iface = start(sample_candidates(), "");
    press(&mut iface, Key::Char('a'));
    press(&mut iface, Key::Char('m'));
    press(&mut iface, Key::Char('o'));
    press(&mut iface, Key::Char('r'));
    press(&mut iface, Key::Char('x'));
    assert_eq!(iface.match_count(), 0);
    let step = press(&mut iface, Key::Backspace);
    assert!(matches!(step, SessionStep::Render));
    assert_eq!(iface.match_count(), 1);
    assert_eq!(iface.search_text(), "amor");
}

#[test]
fn enter_accepts_best_match() {
    let mut iface = start(sample_candidates(), "amor");
    let step = press(&mut iface, Key::Char('\n'));
    match step {
        SessionStep::Finish(Conclusion::Accept(text)) => {
            assert_eq!(text, "app/models/order.rb");
        },
        _ => panic!("expected the session to accept"),
    }
}

#[test]
fn enter_with_no_match_returns_search_text() {
    let mut iface = start(sample_candidates(), "zzzqqq");
    assert_eq!(iface.match_count(), 0);
    let step = press(&mut iface, Key::Char('\n'));
    match step {
        SessionStep::Finish(Conclusion::Accept(text)) => {
            assert_eq!(text, "zzzqqq");
        },
        _ => panic!("expected the session to accept"),
    }
}

#[test]
fn selection_moves_and_saturates() {
    // "amor" itself scores the perfect-match sentinel, so it always ranks
    // above the path candidate.
    let two_matches = || {
        vec![
            "app/models/order.rb".to_string(),
            "amor".to_string(),
            "Gemfile".to_string(),
        ]
    };
    let mut iface = start(two_matches(), "amor");
    assert_eq!(iface.match_count(), 2);

    press(&mut iface, Key::Ctrl('n'));
    match press(&mut iface, Key::Char('\n')) {
        SessionStep::Finish(Conclusion::Accept(text)) => {
            assert_eq!(text, "app/models/order.rb");
        },
        _ => panic!("expected the session to accept"),
    }

    // Moving past the end saturates instead of wrapping.
    let mut iface = start(two_matches(), "amor");
    press(&mut iface, Key::Ctrl('n'));
    press(&mut iface, Key::Ctrl('n'));
    press(&mut iface, Key::Ctrl('n'));
    match press(&mut iface, Key::Char('\n')) {
        SessionStep::Finish(Conclusion::Accept(text)) => {
            assert_eq!(text, "app/models/order.rb");
        },
        _ => panic!("expected the session to accept"),
    }

    // Moving before the start saturates too.
    let mut iface = start(two_matches(), "amor");
    press(&mut iface, Key::Ctrl('p'));
    match press(&mut iface, Key::Char('\n')) {
        SessionStep::Finish(Conclusion::Accept(text)) => {
            assert_eq!(text, "amor");
        },
        _ => panic!("expected the session to accept"),
    }
}

#[test]
fn cancel_keys_cancel() {
    for key in [Key::Ctrl('c'), Key::Ctrl('d'), Key::Escape] {
        let mut iface = start(sample_candidates(), "");
        let step = press(&mut iface, key);
        assert!(matches!(step, SessionStep::Finish(Conclusion::Cancel)));
    }
}

#[test]
fn clear_line_resets_search() {
    let mut iface = start(sample_candidates(), "amor");
    assert_eq!(iface.match_count(), 1);
    let step = press(&mut iface, Key::Ctrl('u'));
    assert!(matches!(step, SessionStep::Render));
    assert_eq!(iface.search_text(), "");
    assert_eq!(iface.match_count(), 6);
}

#[test]
fn unhandled_events_are_ignored() {
    let mut iface = start(sample_candidates(), "amor");
    let before = iface.match_count();
    assert!(matches!(press(&mut iface, Key::F(5)), SessionStep::Idle));
    assert!(matches!(press(&mut iface, Key::Alt('x')), SessionStep::Idle));
    assert!(matches!(
        iface.handle_event(&Event::Unknown(vec![0x1B, b'[', b'z'])),
        SessionStep::Idle
    ));
    assert_eq!(iface.match_count(), before);
}

#[test]
fn write_error_restores_before_reporting() {
    // A fatal write error mid-render: the step the interface hands back
    // orders the driver to restore the terminal first and only then
    // surface the failure.
    let mut iface = start(sample_candidates(), "");
    press(&mut iface, Key::Char('a'));
    let step = iface.on_write_error();
    assert!(matches!(step, SessionStep::Finish(Conclusion::WriteFailed)));
}

#[test]
fn render_frame_exact() {
    let mut iface = start(vec!["a".to_string()], "");
    let frame = iface.render_text();
    assert_eq!(frame, "\x1b[1G\x1b[J1 > \r\n\x1b[7ma\x1b[27m\x1b[1A\x1b[5G");

    // After narrowing to nothing, only the prompt remains.
    press(&mut iface, Key::Char('z'));
    let frame = iface.render_text();
    assert_eq!(frame, "\x1b[1G\x1b[J0 > z");
}

#[test]
fn render_highlights_matched_positions() {
    let iface = start(vec!["ab".to_string()], "b");
    let frame = iface.render_text();
    // Prompt, then the selected row with "b" painted magenta.
    assert_eq!(
        frame,
        "\x1b[1G\x1b[J1 > b\r\n\x1b[7ma\x1b[38;5;5mb\x1b[39m\x1b[27m\x1b[1A\x1b[6G"
    );
}
