use herdr_mirror::pick::host::{set_value, tilde, HostEntry};
use herdr_mirror::pick::key::{byte_read, ByteRead, Key, KeyReader};
use herdr_mirror::pick::menu::{
    draw, menu_rows, picked, term_cols, Menu, MenuStep, Pick, Row, FIRST_ROW_Y,
};

fn keys(input: &[u8]) -> Vec<Key> {
    let mut r = KeyReader::new();
    input.iter().filter_map(|b| r.read_key(Some(*b))).collect()
}

fn row(main: &str, sub: &str) -> Row {
    Row { main: main.into(), sub: sub.into() }
}

fn host(name: &str, target: &str) -> HostEntry {
    HostEntry { name: name.into(), target: target.into() }
}

#[test]
fn plain_keys() {
    assert_eq!(
        keys(b"\r\nq\x03kj019x"),
        [
            Key::Enter,
            Key::Enter,
            Key::Cancel,
            Key::Cancel,
            Key::Up,
            Key::Down,
            Key::Other,
            Key::Digit(1),
            Key::Digit(9),
            Key::Other,
        ]
    );
}

#[test]
fn arrows_in_both_forms() {
    assert_eq!(keys(b"\x1b[A\x1b[B\x1bOA\x1bOB\x1bOC"), [
        Key::Up,
        Key::Down,
        Key::Up,
        Key::Down,
        Key::Other
    ]);
    // parameters before the final byte change nothing
    assert_eq!(keys(b"\x1b[1;5A"), [Key::Up]);
    assert_eq!(keys(b"\x1bxk"), [Key::Other, Key::Up]);
}

#[test]
fn a_lone_escape_cancels() {
    let mut r = KeyReader::new();
    assert_eq!(r.patience(), None);
    assert_eq!(r.read_key(Some(0x1b)), None);
    assert_eq!(r.patience(), Some(300));
    assert_eq!(r.read_key(None), Some(Key::Cancel));
    assert_eq!(r.patience(), None);
}

#[test]
fn an_unfinished_sequence_is_no_key() {
    let mut r = KeyReader::new();
    for b in b"\x1b[12" {
        assert_eq!(r.read_key(Some(*b)), None);
    }
    assert_eq!(r.patience(), Some(60));
    assert_eq!(r.read_key(None), Some(Key::Other));
    assert_eq!(r.read_key(Some(b'k')), Some(Key::Up));

    let mut r = KeyReader::new();
    r.read_key(Some(0x1b));
    assert_eq!(r.read_key(Some(b'O')), None);
    assert_eq!(r.patience(), Some(60));
    assert_eq!(r.read_key(None), Some(Key::Other));
    assert_eq!(r.read_key(None), None);
}

#[test]
fn a_cursor_report_is_taken_whole() {
    assert_eq!(keys(b"\x1b[12;34R3"), [Key::Other, Key::Digit(3)]);
    assert_eq!(keys(b"\x1b[?64;1;2c"), [Key::Other]);
}

#[test]
fn a_control_string_is_taken_whole() {
    assert_eq!(keys(b"\x1b]11;rgb:0000/0000/0000\x07\r"), [Key::Other, Key::Enter]);
    for open in b"]PX^_" {
        for end in [&b"\x07"[..], &b"\x1b\\"[..]] {
            for body in [&b""[..], b"1", b"q\r3", b"\x1b[A", b"\x1b", b"\\", b"\x1b1\\"] {
                let input = [&[0x1b, *open], body, end, b"3"].concat();
                assert_eq!(keys(&input), [Key::Other, Key::Digit(3)], "{input:?}");
            }
        }
    }
    let mut m = Menu::new(4);
    for k in keys(b"\x1bP1$r0m\x1b\\") {
        assert_eq!(m.press(k), MenuStep::Stay);
    }
    assert_eq!(m.selected(), 0);
}

#[test]
fn an_escape_sequence_with_intermediates_is_taken_whole() {
    assert_eq!(keys(b"\x1b#33"), [Key::Other, Key::Digit(3)]);
    assert_eq!(keys(b"\x1b(0\x1b F\x1b$(1k"), [Key::Other, Key::Other, Key::Other, Key::Up]);
    let mut r = KeyReader::new();
    for b in b"\x1b#/" {
        assert_eq!(r.read_key(Some(*b)), None);
    }
    assert_eq!(r.patience(), Some(60));
    assert_eq!(r.read_key(None), Some(Key::Other));
    assert_eq!(r.read_key(Some(b'3')), Some(Key::Digit(3)));
}

#[test]
fn an_unfinished_string_ends_when_the_line_falls_quiet() {
    let mut r = KeyReader::new();
    for b in b"\x1b]11;rgb:1\x1b" {
        assert_eq!(r.read_key(Some(*b)), None);
    }
    assert_eq!(r.patience(), Some(60));
    assert_eq!(r.read_key(None), Some(Key::Other));
    assert_eq!(r.patience(), None);
    assert_eq!(r.read_key(Some(b'k')), Some(Key::Up));
}

#[test]
fn mouse_reports() {
    for (report, key) in [
        ("\x1b[<64;3;4M", Key::Up),
        ("\x1b[<65;3;4M", Key::Down),
        ("\x1b[<0;3;8M", Key::Click { y: 8 }),
        ("\x1b[<0;3;8m", Key::Other),
        ("\x1b[<64;3;4m", Key::Other),
        ("\x1b[<0;3M", Key::Other),
        ("\x1b[<1;3;8M", Key::Other),
        ("\x1b[<M", Key::Other),
        ("\x1b[0;3;8M", Key::Other),
        ("\x1b[M", Key::Other),
        // fields that are no numbers drop out before the row is looked up
        ("\x1b[<0;;3;8M", Key::Click { y: 8 }),
        ("\x1b[<0;-1;3;8M", Key::Click { y: 8 }),
        ("\x1b[<+0;+;3;+8M", Key::Click { y: 8 }),
        ("\x1b[<0;3;4294967295M", Key::Click { y: 4294967295 }),
        ("\x1b[<0;3;4294967296;9M", Key::Click { y: 9 }),
        ("\x1b[<0;3;000000000000008M", Key::Click { y: 8 }),
    ] {
        assert_eq!(keys(report.as_bytes()), [key], "{report:?}");
    }
    assert_eq!(keys(b"\x1b[<0;3;\xff8;9M"), [Key::Click { y: 9 }]);
}

#[test]
fn numbers_are_read_as_the_standard_library_reads_them() {
    for field in ["0", "00", "+0", "+", "-", "-0", "", "12", "1 2", "4294967295", "4294967296",
        "99999999999999999999", "++1", "1+", "é"]
    {
        let report = format!("\x1b[<0;0;{field}M");
        let expected = match field.parse::<u32>() {
            Ok(y) => Key::Click { y },
            Err(_) => Key::Other,
        };
        assert_eq!(keys(report.as_bytes()), [expected], "{field:?}");
    }
}

#[test]
fn reads_of_one_byte() {
    assert_eq!(byte_read(1, false), ByteRead::Got);
    assert_eq!(byte_read(0, true), ByteRead::Closed);
    assert_eq!(byte_read(-1, true), ByteRead::Retry);
    assert_eq!(byte_read(-1, false), ByteRead::Failed);
}

#[test]
fn moving_goes_around() {
    let mut m = Menu::new(3);
    assert_eq!(m.press(Key::Up), MenuStep::Stay);
    assert_eq!(m.selected(), 2);
    m.press(Key::Down);
    assert_eq!(m.selected(), 0);
    m.press(Key::Down);
    assert_eq!(m.press(Key::Enter), MenuStep::Pick(1));
    assert_eq!(m.press(Key::Other), MenuStep::Stay);
    assert_eq!(m.press(Key::Cancel), MenuStep::Cancel);
    let mut one = Menu::new(1);
    one.press(Key::Up);
    assert_eq!(one.selected(), 0);
    one.press(Key::Down);
    assert_eq!(one.selected(), 0);
}

#[test]
fn digits_and_clicks_pick_rows_that_are_there() {
    let mut m = Menu::new(3);
    assert_eq!(m.press(Key::Digit(1)), MenuStep::Pick(0));
    assert_eq!(m.press(Key::Digit(3)), MenuStep::Pick(2));
    assert_eq!(m.press(Key::Digit(4)), MenuStep::Stay);
    assert_eq!(m.press(Key::Digit(0)), MenuStep::Stay);
    assert_eq!(m.press(Key::Click { y: 5 }), MenuStep::Stay);
    assert_eq!(m.press(Key::Click { y: 6 }), MenuStep::Pick(0));
    assert_eq!(m.press(Key::Click { y: 8 }), MenuStep::Pick(2));
    assert_eq!(m.press(Key::Click { y: 9 }), MenuStep::Stay);
    assert_eq!(m.press(Key::Click { y: 0 }), MenuStep::Stay);
    assert_eq!(m.selected(), 0);
}

#[test]
fn a_report_leaves_the_choice_alone() {
    let mut m = Menu::new(4);
    for k in keys(b"\x1b[2;3R") {
        assert_eq!(m.press(k), MenuStep::Stay);
    }
    assert_eq!(m.selected(), 0);
}

#[test]
fn picks_mean_here_or_a_host() {
    assert_eq!(picked(None), (Pick::Nothing, false));
    assert_eq!(picked(Some(0)), (Pick::Here, true));
    assert_eq!(picked(Some(3)), (Pick::Host(2), true));
}

#[test]
fn paths_under_home_are_shown_short() {
    assert_eq!(tilde("/home/me/x", Some("/home/me")), "~/x");
    assert_eq!(tilde("/home/me", Some("/home/me")), "~");
    assert_eq!(tilde("/home/you", Some("/home/me")), "/home/you");
    assert_eq!(tilde("/home/me2", Some("/home/me")), "/home/me2");
    assert_eq!(tilde("/home/me2/x", Some("/home/me")), "/home/me2/x");
    assert_eq!(tilde("/home", Some("/home/me")), "/home");
    assert_eq!(tilde("/home/me/", Some("/home/me")), "~/");
    assert_eq!(tilde("/x", Some("")), "/x");
    assert_eq!(tilde("/x", None), "/x");
    assert_eq!(tilde("/hömé/ü", Some("/hömé")), "~/ü");
}

#[test]
fn empty_variables_are_unset() {
    assert_eq!(set_value(Some("")), None);
    assert_eq!(set_value(None), None);
    assert_eq!(set_value(Some("/x")), Some("/x".into()));
}

#[test]
fn rows_offer_this_machine_and_each_host() {
    assert_eq!(menu_rows(&[], None, None, None), [row("this machine", "")]);
    assert_eq!(
        menu_rows(&[host("a", "a")], Some("a"), Some("/h/x"), Some("/h")),
        [row("this machine", "~/x"), row("a", "")]
    );
    assert_eq!(
        menu_rows(&[host("a", "a"), host("b", "me@b"), host("c", "c2")], Some("b"), None, None),
        [row("this machine", ""), row("a", ""), row("b", "me@b (default)"), row("c", "c2")]
    );
    assert_eq!(
        menu_rows(&[host("a", "a"), host("b", "b")], Some("a"), None, None)[1],
        row("a", "(default)")
    );
}

/// The frame, written with the formatting of the standard library.
fn frame(rows: &[Row], sel: usize, note: Option<&str>, cols: usize) -> String {
    let name_w = rows.iter().map(|r| r.main.len()).max().unwrap_or(0);
    let number_w = rows.len().to_string().len();
    let rule = "─".repeat(cols.saturating_sub(8).min(60));
    let mut out = String::from("\x1b[2J\x1b[H");
    out += "\r\n\r\n    \x1b[1mNew workspace on...\x1b[0m\r\n";
    out += &format!("    \x1b[2m{rule}\x1b[0m\r\n\r\n");
    for (i, r) in rows.iter().enumerate() {
        let room = cols.saturating_sub(name_w + 14);
        let sub: String = r.sub.chars().take(room).collect();
        if i == sel {
            out += &format!(
                "    \x1b[7;1m > {:<number_w$} {:name_w$} \x1b[0m\x1b[2m  {}\x1b[0m\r\n",
                i + 1,
                r.main,
                sub
            );
        } else {
            out += &format!(
                "       {:<number_w$} {:name_w$}\x1b[2m   {}\x1b[0m\r\n",
                i + 1,
                r.main,
                sub
            );
        }
    }
    out += &format!("\r\n    \x1b[2m{rule}\x1b[0m\r\n");
    out += "    \x1b[2mclick or enter pick - up/down move - esc cancel\x1b[0m\r\n";
    if let Some(n) = note {
        out += &format!("    \x1b[2m(hosts.toml: {n})\x1b[0m\r\n");
    }
    out
}

#[test]
fn frames_are_as_formatted() {
    let many: Vec<Row> =
        (0..12).map(|i| row(&"x".repeat(i), "a long subtitle, for a change")).collect();
    let wide = vec![row("this machine", "~/ü"), row("höst", "me@höst (default)")];
    for rows in [&many[..], &wide[..], &[]] {
        for sel in [0, 1, 11] {
            for cols in [0, 7, 8, 20, 27, 68, 80, 200] {
                for note in [None, Some("no such file")] {
                    assert_eq!(draw(rows, sel, note, cols), frame(rows, sel, note, cols));
                }
            }
        }
    }
}

/// A line without its escape sequences.
fn visible(line: &str) -> String {
    let mut out = String::new();
    let mut rest = line.chars();
    while let Some(c) = rest.next() {
        if c == '\x1b' {
            rest.by_ref().find(|c| c.is_ascii_alphabetic());
        } else {
            out.push(c);
        }
    }
    out
}

#[test]
fn subtitles_line_up() {
    let two = vec![row("a", "@x"), row("bb", "@y")];
    let names = vec![row("this machine", "@"), row("höst", "@me"), row("", "@")];
    let many: Vec<Row> = (0..12).map(|i| row(&"n".repeat(i), "@sub")).collect();
    for (rows, column) in [(two, 14), (names, 24), (many, 24)] {
        for sel in 0..rows.len() {
            let shown = draw(&rows, sel, None, 80);
            let lines: Vec<String> =
                shown.split("\r\n").skip(FIRST_ROW_Y - 1).take(rows.len()).map(visible).collect();
            for line in lines {
                assert_eq!(line.chars().position(|c| c == '@'), Some(column), "{line:?}");
                assert!(line.chars().count() <= 80);
            }
        }
    }
}

#[test]
fn options_are_drawn_where_clicks_are_looked_up() {
    let rows = [row("this machine", ""), row("alpha", "x"), row("beta", "y")];
    let shown = draw(&rows, 1, None, 80);
    let lines: Vec<&str> = shown.split("\r\n").collect();
    for (i, r) in rows.iter().enumerate() {
        assert!(lines[FIRST_ROW_Y - 1 + i].contains(&r.main), "{:?}", lines);
        let mut m = Menu::new(rows.len());
        assert_eq!(m.press(Key::Click { y: (FIRST_ROW_Y + i) as u32 }), MenuStep::Pick(i));
    }
}

#[test]
fn terminals_without_a_width_have_eighty_columns() {
    assert_eq!(term_cols(None), 80);
    assert_eq!(term_cols(Some(0)), 80);
    assert_eq!(term_cols(Some(132)), 132);
}
