use routerctl::error::ClientError;
use routerctl::poll::run_polls;
use routerctl::render::Frame;
use routerctl::render::render;
use routerctl::term::encode_cmds;

fn frame(lines: &[&str]) -> Frame {
    Frame { lines: lines.iter().map(|s| s.to_string()).collect() }
}

fn rendered(prev: Option<&[&str]>, new: &[&str]) -> String {
    let prev = prev.map(|p| frame(p));
    encode_cmds(&render(&prev, &frame(new)))
}

const UP: &str = "\u{1b}[F";
const CLEAR: &str = "\u{1b}[2K\r";

/// A minimal VT100 interpreter covering exactly the sequences the renderer
/// uses: newline, carriage return, cursor-up, and clear-line.
fn apply_term(screen: &mut Vec<Vec<char>>, row: &mut usize, col: &mut usize, s: &str) {
    let cs: Vec<char> = s.chars().collect();
    let mut i = 0;
    while i < cs.len() {
        let c = cs[i];
        if c == '\u{1b}' {
            if cs[i + 1] == '[' && cs[i + 2] == 'F' {
                *row -= 1;
                *col = 0;
                i += 3;
            } else if cs[i + 1] == '[' && cs[i + 2] == '2' && cs[i + 3] == 'K' {
                screen[*row].clear();
                i += 4;
            } else {
                panic!("unexpected escape sequence");
            }
        } else if c == '\n' {
            *row += 1;
            *col = 0;
            if *row == screen.len() {
                screen.push(Vec::new());
            }
            i += 1;
        } else if c == '\r' {
            *col = 0;
            i += 1;
        } else {
            let line = &mut screen[*row];
            while line.len() < *col {
                line.push(' ');
            }
            if line.len() == *col {
                line.push(c);
            } else {
                line[*col] = c;
            }
            *col += 1;
            i += 1;
        }
    }
}

fn assert_screen_shows(screen: &[Vec<char>], row: usize, col: usize, lines: &[&str]) {
    assert!(screen.len() > lines.len());
    for (i, l) in lines.iter().enumerate() {
        let got: String = screen[i].iter().collect();
        assert_eq!(&got, l);
    }
    for r in &screen[lines.len()..] {
        assert!(r.is_empty());
    }
    assert_eq!(row, lines.len());
    assert_eq!(col, 0);
}

#[test]
fn terminal_semantics_reproduce_last_frame() {
    // Three frames of constant line count: the screen must end up showing
    // exactly the last frame's lines and nothing else.
    let mut screen: Vec<Vec<char>> = vec![Vec::new()];
    let (mut row, mut col) = (0usize, 0usize);
    apply_term(&mut screen, &mut row, &mut col, &rendered(None, &["a1", "b1"]));
    apply_term(&mut screen, &mut row, &mut col, &rendered(Some(&["a1", "b1"]), &["a2", "b2"]));
    apply_term(&mut screen, &mut row, &mut col, &rendered(Some(&["a2", "b2"]), &["x3", "longer3"]));
    assert_screen_shows(&screen, row, col, &["x3", "longer3"]);
}

#[test]
fn terminal_semantics_shrinking_leaves_no_stale_text() {
    // A five-line list followed by a two-line one: no stale characters may
    // survive below the new frame.
    let five = ["row1", "row2", "row3", "row4", "row5"];
    let two = ["first", "second"];
    let mut screen: Vec<Vec<char>> = vec![Vec::new()];
    let (mut row, mut col) = (0usize, 0usize);
    apply_term(&mut screen, &mut row, &mut col, &rendered(None, &five));
    assert_screen_shows(&screen, row, col, &five);
    apply_term(&mut screen, &mut row, &mut col, &rendered(Some(&five), &two));
    assert_screen_shows(&screen, row, col, &two);
}

#[test]
fn terminal_semantics_growing_frame() {
    let one = ["only"];
    let three = ["a", "bb", "ccc"];
    let mut screen: Vec<Vec<char>> = vec![Vec::new()];
    let (mut row, mut col) = (0usize, 0usize);
    apply_term(&mut screen, &mut row, &mut col, &rendered(None, &one));
    apply_term(&mut screen, &mut row, &mut col, &rendered(Some(&one), &three));
    assert_screen_shows(&screen, row, col, &three);
}

#[test]
fn first_frame_writes_every_line() {
    assert_eq!(rendered(None, &["alpha", "beta"]), "alpha\nbeta\n");
}

#[test]
fn first_frame_empty_is_no_output() {
    assert_eq!(rendered(None, &[]), "");
}

#[test]
fn constant_count_rewrites_every_line_in_place() {
    let out = rendered(Some(&["old1", "old2"]), &["new1", "new2"]);
    let expected = format!("{UP}{UP}{CLEAR}new1\n{CLEAR}new2\n");
    assert_eq!(out, expected);
}

#[test]
fn shrinking_frame_clears_exact_excess() {
    // Five lines drawn, two in the new frame: exactly three trailing lines
    // must be cleared, and the cursor must come back below the second line.
    let out = rendered(Some(&["1", "2", "3", "4", "5"]), &["a", "b"]);
    let expected = format!(
        "{UP}{UP}{UP}{UP}{UP}{CLEAR}a\n{CLEAR}b\n{CLEAR}\n{CLEAR}\n{CLEAR}\n{UP}{UP}{UP}"
    );
    assert_eq!(out, expected);
}

#[test]
fn growing_frame_rewrites_and_clears_nothing() {
    let out = rendered(Some(&["x"]), &["a", "b", "c"]);
    let expected = format!("{UP}{CLEAR}a\n{CLEAR}b\n{CLEAR}c\n");
    assert_eq!(out, expected);
}

#[test]
fn empty_redraw_over_empty_frame() {
    assert_eq!(rendered(Some(&[]), &[]), "");
}

#[test]
fn redraw_to_empty_clears_all_previous_lines() {
    let out = rendered(Some(&["a", "b"]), &[]);
    let expected = format!("{UP}{UP}{CLEAR}\n{CLEAR}\n{UP}{UP}");
    assert_eq!(out, expected);
}

#[test]
fn poll_loop_draws_each_success_in_sequence() {
    let events = vec![
        Ok(frame(&["one"])),
        Ok(frame(&["two"])),
    ];
    let (outs, fatal) = run_polls(events);
    assert_eq!(outs.len(), 2);
    assert_eq!(outs[0], "one\n");
    assert_eq!(outs[1], format!("{UP}{CLEAR}two\n"));
    assert!(fatal.is_none());
}

#[test]
fn poll_loop_stops_after_third_render_on_fourth_failure() {
    // Three successful polls, then a failure: exactly three draws, the
    // failure surfaced once, and nothing afterwards is processed.
    let events = vec![
        Ok(frame(&["p1"])),
        Ok(frame(&["p2"])),
        Ok(frame(&["p3"])),
        Err(ClientError::Transport(String::from("connection reset"))),
        Ok(frame(&["never"])),
    ];
    let (outs, fatal) = run_polls(events);
    assert_eq!(outs.len(), 3);
    assert_eq!(outs[0], "p1\n");
    assert_eq!(outs[1], format!("{UP}{CLEAR}p2\n"));
    assert_eq!(outs[2], format!("{UP}{CLEAR}p3\n"));
    match fatal {
        Some(e) => assert_eq!(e.message(), "transport error: connection reset"),
        None => panic!("the failure must be surfaced"),
    }
}

#[test]
fn poll_loop_list_mode_varying_lengths() {
    let events = vec![
        Ok(frame(&["h", "r1", "r2", "r3", "r4"])),
        Ok(frame(&["h", "r1"])),
        Ok(frame(&["h", "r1", "r2"])),
    ];
    let (outs, fatal) = run_polls(events);
    assert_eq!(outs.len(), 3);
    assert_eq!(outs[0], "h\nr1\nr2\nr3\nr4\n");
    let shrink = format!(
        "{UP}{UP}{UP}{UP}{UP}{CLEAR}h\n{CLEAR}r1\n{CLEAR}\n{CLEAR}\n{CLEAR}\n{UP}{UP}{UP}"
    );
    assert_eq!(outs[1], shrink);
    let grow = format!("{UP}{UP}{CLEAR}h\n{CLEAR}r1\n{CLEAR}r2\n");
    assert_eq!(outs[2], grow);
    assert!(fatal.is_none());
}

#[test]
fn poll_loop_immediate_failure_draws_nothing() {
    let events = vec![Err(ClientError::Protocol(String::from("bad json")))];
    let (outs, fatal) = run_polls(events);
    assert_eq!(outs.len(), 0);
    match fatal {
        Some(e) => assert_eq!(e.message(), "protocol error: bad json"),
        None => panic!("the failure must be surfaced"),
    }
}
