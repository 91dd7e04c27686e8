use refresh_auth_sock::render::{
    no_sockets_message, pad_left, pad_right, present, render_table, timestamp_text, u64_to_string,
};
use refresh_auth_sock::scan::{
    base_name_of, finish, next_pending, observe, scan_done, scan_error_line, scan_start,
    should_report_scan_error, sort_candidates, starts_with_prefix,
};
use refresh_auth_sock::select::{
    advance, batch_output, export_line, interpret, invalid_line, press_enter_line, prompt_line,
    trim_input, Reply, Session,
};
use refresh_auth_sock::{
    active_agent_var, default_scan_root, default_socket_prefix, ts_le_exec, Candidate,
};

fn cand(path: &str, modified: Option<u64>) -> Candidate {
    Candidate {
        path: path.to_string(),
        modified,
    }
}

#[test]
fn constants_are_fixed() {
    assert_eq!(default_scan_root(), "/tmp");
    assert_eq!(default_socket_prefix(), "agent.");
    assert_eq!(active_agent_var(), "SSH_AUTH_SOCK");
}

#[test]
fn timestamp_order_treats_missing_as_oldest() {
    assert!(ts_le_exec(&None, &None));
    assert!(ts_le_exec(&None, &Some(0)));
    assert!(!ts_le_exec(&Some(0), &None));
    assert!(ts_le_exec(&Some(3), &Some(7)));
    assert!(!ts_le_exec(&Some(7), &Some(3)));
}

#[test]
fn base_name_takes_last_component() {
    assert_eq!(base_name_of("/tmp/sub/agent.2002"), "agent.2002");
    assert_eq!(base_name_of("/tmp"), "tmp");
    assert_eq!(base_name_of("agent.5"), "agent.5");
    assert_eq!(base_name_of(""), "");
}

#[test]
fn prefix_check_is_exact() {
    assert!(starts_with_prefix("agent.123", "agent."));
    assert!(starts_with_prefix("agent.", "agent."));
    assert!(!starts_with_prefix("agent", "agent."));
    assert!(!starts_with_prefix("ssh-agent.123", "agent."));
    assert!(!starts_with_prefix("", "agent."));
}

#[test]
fn scanner_keeps_only_matching_sockets() {
    let mut s = scan_start("/tmp".to_string(), "agent.".to_string());
    let root = next_pending(&mut s).unwrap();
    assert_eq!(root, "/tmp");
    let children = vec![
        "/tmp/agent.1".to_string(),
        "/tmp/notes.txt".to_string(),
        "/tmp/agent.d".to_string(),
        "/tmp/xagent.2".to_string(),
    ];
    assert!(!observe(&mut s, root, false, None, children));
    // a plain file whose name matches is not recorded
    let p = next_pending(&mut s).unwrap();
    assert_eq!(p, "/tmp/xagent.2");
    assert!(!observe(&mut s, p, true, Some(9), Vec::new()));
    let p = next_pending(&mut s).unwrap();
    assert_eq!(p, "/tmp/agent.d");
    assert!(observe(&mut s, p, true, Some(5), Vec::new()));
    let p = next_pending(&mut s).unwrap();
    assert_eq!(p, "/tmp/notes.txt");
    assert!(!observe(&mut s, p, false, Some(7), Vec::new()));
    let p = next_pending(&mut s).unwrap();
    assert_eq!(p, "/tmp/agent.1");
    assert!(observe(&mut s, p, true, None, Vec::new()));
    assert!(scan_done(&s));
    let found = finish(s);
    assert_eq!(found.len(), 2);
    assert_eq!(found[0].path, "/tmp/agent.d");
    assert_eq!(found[1].path, "/tmp/agent.1");
}

#[test]
fn sort_is_newest_first_with_missing_last() {
    let mut v = vec![
        cand("/tmp/agent.a", None),
        cand("/tmp/agent.b", Some(10)),
        cand("/tmp/agent.c", Some(30)),
        cand("/tmp/agent.d", Some(20)),
        cand("/tmp/agent.e", None),
    ];
    sort_candidates(&mut v);
    let times: Vec<Option<u64>> = v.iter().map(|c| c.modified).collect();
    assert_eq!(times, vec![Some(30), Some(20), Some(10), None, None]);
}

#[test]
fn batch_empty_scan_emits_nothing() {
    let v: Vec<Candidate> = Vec::new();
    assert!(batch_output(&v).is_none());
}

#[test]
fn batch_picks_newest_whatever_the_input_order() {
    let t1 = 3_000_000_000u64;
    let t2 = 2_000_000_000u64;
    let t3 = 1_000_000_000u64;
    let orders: Vec<Vec<(u64, &str)>> = vec![
        vec![(t1, "/tmp/agent.one"), (t2, "/tmp/agent.two"), (t3, "/tmp/agent.three")],
        vec![(t2, "/tmp/agent.two"), (t1, "/tmp/agent.one"), (t3, "/tmp/agent.three")],
        vec![(t3, "/tmp/agent.three"), (t2, "/tmp/agent.two"), (t1, "/tmp/agent.one")],
        vec![(t3, "/tmp/agent.three"), (t1, "/tmp/agent.one"), (t2, "/tmp/agent.two")],
    ];
    for order in orders {
        let mut v: Vec<Candidate> = order.iter().map(|(t, p)| cand(p, Some(*t))).collect();
        sort_candidates(&mut v);
        let out = batch_output(&v).unwrap();
        assert_eq!(out, "export SSH_AUTH_SOCK=/tmp/agent.one");
    }
}

#[test]
fn end_to_end_batch_finds_nested_newer_socket() {
    let mut s = scan_start("/tmp".to_string(), "agent.".to_string());
    let root = next_pending(&mut s).unwrap();
    let children = vec!["/tmp/agent.1001".to_string(), "/tmp/sub".to_string()];
    observe(&mut s, root, false, None, children);
    let p = next_pending(&mut s).unwrap();
    assert_eq!(p, "/tmp/sub");
    observe(&mut s, p, false, None, vec!["/tmp/sub/agent.2002".to_string()]);
    let p = next_pending(&mut s).unwrap();
    assert_eq!(p, "/tmp/sub/agent.2002");
    observe(&mut s, p, true, Some(2_002_000_000_000), Vec::new());
    let p = next_pending(&mut s).unwrap();
    assert_eq!(p, "/tmp/agent.1001");
    observe(&mut s, p, true, Some(1_001_000_000_000), Vec::new());
    assert!(scan_done(&s));
    let found = finish(s);
    let out = batch_output(&found).unwrap();
    assert_eq!(out, "export SSH_AUTH_SOCK=/tmp/sub/agent.2002");
}

#[test]
fn presenter_empty_list_is_one_message() {
    let v: Vec<Candidate> = Vec::new();
    let lines = present(&v, &"".to_string());
    assert_eq!(lines, vec!["No SSH agent sockets found.".to_string()]);
    assert_eq!(no_sockets_message(), "No SSH agent sockets found.");
}

#[test]
fn presenter_marks_exactly_the_active_row() {
    let v = vec![
        cand("/tmp/agent.a", Some(2_000_000_000)),
        cand("/tmp/agent.b", Some(1_000_000_000)),
    ];
    let lines = present(&v, &"/tmp/agent.b".to_string());
    assert_eq!(lines.len(), 6);
    assert!(!lines[3].contains("CURRENT"));
    assert!(lines[4].contains("CURRENT"));
    assert!(lines[3].contains("/tmp/agent.a"));
    assert!(lines[4].contains("/tmp/agent.b"));
}

#[test]
fn presenter_marks_no_row_without_a_match() {
    let v = vec![
        cand("/tmp/agent.a", Some(2_000_000_000)),
        cand("/tmp/agent.b", None),
    ];
    let lines = present(&v, &"/somewhere/else".to_string());
    assert_eq!(lines.len(), 6);
    assert!(!lines[3].contains("CURRENT"));
    assert!(!lines[4].contains("CURRENT"));
    // the borders are fixed
    assert!(lines[0].starts_with("┌"));
    assert!(lines[1].contains("Idx"));
    assert!(lines[2].starts_with("├"));
    assert!(lines[5].starts_with("└"));
    // a missing timestamp renders as the fixed marker
    assert!(lines[4].contains("Unknown"));
}

#[test]
fn row_layout_is_fixed_width() {
    let v = vec![cand("/tmp/agent.a", None)];
    let lines = render_table(&v, &vec!["Unknown".to_string()], &"/tmp/agent.a".to_string());
    assert_eq!(
        lines[3],
        "│   1 │ CURRENT │             Unknown │ /tmp/agent.a                            │"
    );
}

#[test]
fn timestamp_text_for_missing_is_unknown() {
    assert_eq!(timestamp_text(&None), "Unknown");
    let shown = timestamp_text(&Some(0));
    assert_ne!(shown, "Unknown");
    assert_eq!(shown.len(), 19);
    let nanos = 1_700_000_000_000_000_000u64;
    let shown = timestamp_text(&Some(nanos));
    assert_eq!(shown.len(), 19);
}

#[test]
fn numbers_render_in_decimal() {
    assert_eq!(u64_to_string(0), "0");
    assert_eq!(u64_to_string(7), "7");
    assert_eq!(u64_to_string(10), "10");
    assert_eq!(u64_to_string(90217), "90217");
    assert_eq!(u64_to_string(u64::MAX), "18446744073709551615");
}

#[test]
fn padding_is_space_filled() {
    assert_eq!(pad_left("ab".to_string(), 5), "   ab");
    assert_eq!(pad_right("ab".to_string(), 5), "ab   ");
    assert_eq!(pad_left("abcdef".to_string(), 3), "abcdef");
    assert_eq!(pad_right("abcdef".to_string(), 3), "abcdef");
}

#[test]
fn trimming_strips_line_ends() {
    assert_eq!(trim_input("  2 \n"), "2");
    assert_eq!(trim_input("q\r\n"), "q");
    assert_eq!(trim_input("\t \n"), "");
    assert_eq!(trim_input("a b"), "a b");
}

#[test]
fn quit_is_either_case() {
    assert!(matches!(interpret("q\n", 3), Reply::Quit));
    assert!(matches!(interpret("Q\n", 3), Reply::Quit));
    assert!(matches!(interpret(" q ", 0), Reply::Quit));
}

#[test]
fn invalid_inputs_share_one_outcome() {
    assert!(matches!(interpret("0\n", 3), Reply::Invalid));
    assert!(matches!(interpret("-1\n", 3), Reply::Invalid));
    assert!(matches!(interpret("abc\n", 3), Reply::Invalid));
    assert!(matches!(interpret("4\n", 3), Reply::Invalid));
    assert!(matches!(interpret("\n", 3), Reply::Invalid));
    assert!(matches!(interpret("99999999999999999999999999\n", 3), Reply::Invalid));
}

#[test]
fn valid_index_is_parsed() {
    assert!(matches!(interpret("1\n", 3), Reply::Chosen(1)));
    assert!(matches!(interpret(" 3 \n", 3), Reply::Chosen(3)));
    assert!(matches!(interpret("02", 3), Reply::Chosen(2)));
}

#[test]
fn invalid_selection_leaves_session_unchanged() {
    let found = vec![
        cand("/tmp/agent.a", Some(2)),
        cand("/tmp/agent.b", Some(1)),
    ];
    for line in ["0\n", "-1\n", "abc\n", "3\n"] {
        let mut sess = Session {
            active: "/old/sock".to_string(),
        };
        let r = advance(&mut sess, &found, line);
        assert!(matches!(r, Reply::Invalid));
        assert_eq!(sess.active, "/old/sock");
    }
}

#[test]
fn valid_selection_sets_session_and_ends() {
    let found = vec![
        cand("/tmp/agent.a", Some(2)),
        cand("/tmp/agent.b", Some(1)),
    ];
    let mut sess = Session {
        active: "/old/sock".to_string(),
    };
    let r = advance(&mut sess, &found, "2\n");
    assert!(matches!(r, Reply::Chosen(2)));
    assert_eq!(sess.active, "/tmp/agent.b");
}

#[test]
fn quit_leaves_session_unchanged() {
    let found = vec![cand("/tmp/agent.a", Some(2))];
    let mut sess = Session {
        active: "/old/sock".to_string(),
    };
    let r = advance(&mut sess, &found, "q\n");
    assert!(matches!(r, Reply::Quit));
    assert_eq!(sess.active, "/old/sock");
}

#[test]
fn export_line_is_shell_evaluable() {
    assert_eq!(export_line("/tmp/agent.7"), "export SSH_AUTH_SOCK=/tmp/agent.7");
}

#[test]
fn prompt_and_complaint_name_the_range() {
    assert_eq!(prompt_line(4), "Enter socket number (1-4) or 'q' to quit: ");
    assert_eq!(
        invalid_line(12),
        "Invalid selection. Please enter a number between 1 and 12 or 'q' to quit."
    );
    assert_eq!(press_enter_line(), "Press Enter to continue...");
}

#[test]
fn permission_errors_stay_silent() {
    assert!(!should_report_scan_error(Some(13)));
    assert!(should_report_scan_error(Some(2)));
    assert!(should_report_scan_error(None));
    assert_eq!(
        scan_error_line("/tmp/x", "boom"),
        "Error reading directory /tmp/x: boom"
    );
}
