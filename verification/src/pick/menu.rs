//! The menu of the picker: its rows, its frame on the screen, and what each
//! key does.

use crate::pick::host::{host_texts, tilde, tilde_text, HostEntry, HostText};
use crate::pick::key::{
    control_sequence, control_string, escape_sequence, is_final, is_intermediate, is_string_end,
    keys, law_control_string_is_taken_whole, law_escape_sequence_is_taken_whole,
    law_report_is_no_choice, open_body, opens_string, Key,
};
use crate::text::{byte_len, lemma_bytes_cover_chars, opt_str, same};
use vstd::prelude::*;

verus! {

/// Terminal row of the first option, counted from one: two blank lines, the
/// title, the rule and one more blank line stand above it.
pub const FIRST_ROW_Y: usize = 6;

/// Hides the cursor and asks for mouse reports.
pub const GRAB: &'static str = "\x1b[?25l\x1b[?1000h\x1b[?1006h";

/// Clears the screen and shows the cursor again.
pub const CLEARED: &'static str = "\x1b[2J\x1b[H\x1b[?25h\r\n  ";

/// Gives the mouse and the cursor back.
pub const RELEASE: &'static str = "\x1b[?1000l\x1b[?25h";

pub const EOL: &'static str = "\r\n";

pub const CLEAR: &'static str = "\x1b[2J\x1b[H";

pub const TITLE: &'static str = "    \x1b[1mNew workspace on...\x1b[0m";

pub const DIM: &'static str = "    \x1b[2m";

pub const PLAIN: &'static str = "\x1b[0m";

pub const HELP: &'static str = "    \x1b[2mclick or enter pick - up/down move - esc cancel\x1b[0m";

pub const NOTE: &'static str = "    \x1b[2m(hosts.toml: ";

pub const NOTE_END: &'static str = ")\x1b[0m";

pub const CHOSEN: &'static str = "    \x1b[7;1m > ";

pub const CHOSEN_SUB: &'static str = " \x1b[0m\x1b[2m  ";

pub const UNCHOSEN: &'static str = "       ";

pub const UNCHOSEN_SUB: &'static str = "\x1b[2m   ";

/// One menu line: the name to pick and a dim subtitle.
#[derive(Debug, PartialEq, Eq)]
pub struct Row {
    pub main: String,
    pub sub: String,
}

/// The texts of a row.
pub struct RowText {
    pub main: Seq<char>,
    pub sub: Seq<char>,
}

impl View for Row {
    type V = RowText;

    open spec fn view(&self) -> RowText {
        RowText { main: self.main@, sub: self.sub@ }
    }
}

/// The texts of some rows.
pub open spec fn row_texts(rows: Seq<Row>) -> Seq<RowText> {
    rows.map_values(|r: Row| r@)
}

// --- the rows ---------------------------------------------------------------

/// The row of a host. The target is shown where it says more than the name;
/// the default host is marked where there is a choice of hosts.
pub open spec fn host_row(host: HostText, many: bool, default_host: Option<Seq<char>>) -> RowText {
    let target = if host.target != host.name {
        host.target
    } else {
        Seq::empty()
    };
    let sub = if many && default_host == Some(host.name) {
        if target.len() > 0 {
            target + " "@ + "(default)"@
        } else {
            "(default)"@
        }
    } else {
        target
    };
    RowText { main: host.name, sub }
}

/// The row of this machine, with the directory a workspace here would start in.
pub open spec fn local_row(cwd: Option<Seq<char>>, home: Option<Seq<char>>) -> RowText {
    RowText {
        main: "this machine"@,
        sub: match cwd {
            Some(c) => tilde_text(c, home),
            None => Seq::empty(),
        },
    }
}

/// All rows: this machine, then each host in order.
pub open spec fn all_rows(
    hosts: Seq<HostText>,
    default_host: Option<Seq<char>>,
    cwd: Option<Seq<char>>,
    home: Option<Seq<char>>,
) -> Seq<RowText> {
    seq![local_row(cwd, home)] + Seq::new(
        hosts.len(),
        |i: int| host_row(hosts[i], hosts.len() > 1, default_host),
    )
}

fn row_of_host(host: &HostEntry, many: bool, default_host: Option<&str>) -> (r: Row)
    ensures
        r@ == host_row(host@, many, opt_str(default_host)),
{
    let mut sub = if same(host.target.as_str(), host.name.as_str()) {
        String::new()
    } else {
        host.target.as_str().to_owned()
    };
    let is_default = match default_host {
        Some(d) => same(d, host.name.as_str()),
        None => false,
    };
    if many && is_default {
        if !sub.as_str().is_empty() {
            sub.append(" ");
            sub.append("(default)");
        } else {
            sub = "(default)".to_owned();
        }
    }
    Row { main: host.name.as_str().to_owned(), sub }
}

/// The rows of the menu.
pub fn menu_rows(
    hosts: &[HostEntry],
    default_host: Option<&str>,
    cwd: Option<&str>,
    home: Option<&str>,
) -> (r: Vec<Row>)
    ensures
        row_texts(r@) == all_rows(
            host_texts(hosts@),
            opt_str(default_host),
            opt_str(cwd),
            opt_str(home),
        ),
{
    let sub = match cwd {
        Some(c) => tilde(c, home),
        None => String::new(),
    };
    let mut rows: Vec<Row> = Vec::new();
    rows.push(Row { main: "this machine".to_owned(), sub });
    let many = hosts.len() > 1;
    let ghost want = all_rows(host_texts(hosts@), opt_str(default_host), opt_str(cwd), opt_str(home));
    let mut i: usize = 0;
    while i < hosts.len()
        invariant
            i <= hosts@.len(),
            many == (hosts@.len() > 1),
            rows@.len() == i + 1,
            want == all_rows(
                host_texts(hosts@),
                opt_str(default_host),
                opt_str(cwd),
                opt_str(home),
            ),
            forall|j: int| 0 <= j <= i ==> (#[trigger] rows@[j])@ == want[j],
        decreases hosts@.len() - i,
    {
        let row = row_of_host(&hosts[i], many, default_host);
        rows.push(row);
        i += 1;
    }
    assert(row_texts(rows@) =~= want);
    rows
}

/// What a choice in the menu asks for.
#[derive(Debug, Clone, Copy, PartialEq, Eq, Structural)]
pub enum Pick {
    Nothing,
    Here,
    Host(usize),
}

/// What a choice asks for.
pub open spec fn pick_of(choice: Option<usize>) -> Pick {
    match choice {
        None => Pick::Nothing,
        Some(i) => if i == 0 {
            Pick::Here
        } else {
            Pick::Host((i - 1) as usize)
        },
    }
}

/// What a choice asks for: the first row is this machine, each further row
/// the host it was made from. Only a choice leaves a message worth holding the
/// popup open for.
pub fn picked(choice: Option<usize>) -> (r: (Pick, bool))
    ensures
        r.0 == (match choice {
            None => Pick::Nothing,
            Some(i) => if i == 0 {
                Pick::Here
            } else {
                Pick::Host((i - 1) as usize)
            },
        }),
        r.0 == pick_of(choice),
        r.1 == (choice is Some),
{
    match choice {
        None => (Pick::Nothing, false),
        Some(i) => if i == 0 {
            (Pick::Here, true)
        } else {
            (Pick::Host(i - 1), true)
        },
    }
}

// --- the frame --------------------------------------------------------------

/// A number in decimal digits.
pub open spec fn decimal(n: nat) -> Seq<char>
    decreases n,
{
    if n < 10 {
        seq![digit(n)]
    } else {
        decimal(n / 10).push(digit(n % 10))
    }
}

pub open spec fn digit(d: nat) -> char {
    ('0' as u8 + d) as char
}

/// `n` times the same character.
pub open spec fn repeated(c: char, n: nat) -> Seq<char> {
    Seq::new(n, |i: int| c)
}

/// `s`, filled up with blanks to `width` characters.
pub open spec fn padded(s: Seq<char>, width: nat) -> Seq<char> {
    s + repeated(
        ' ',
        if s.len() < width {
            (width - s.len()) as nat
        } else {
            0
        },
    )
}

/// The width of the name column: that of the longest name, in bytes.
pub open spec fn name_width(rows: Seq<RowText>) -> nat
    decreases rows.len(),
{
    if rows.len() == 0 {
        0
    } else {
        let rest = name_width(rows.drop_last());
        let last = byte_len(rows.last().main);
        if rest < last {
            last
        } else {
            rest
        }
    }
}

/// As much of a subtitle as the popup has room for beside the name column and the
/// fourteen columns for marks, number, blanks and a margin.
pub open spec fn cut_sub(sub: Seq<char>, name_w: nat, cols: nat) -> Seq<char> {
    let room = if name_w + 14 < cols {
        (cols - (name_w + 14)) as nat
    } else {
        0
    };
    if room < sub.len() {
        sub.take(room as int)
    } else {
        sub
    }
}

/// The width of the number column: that of the number of the last of so many
/// options.
pub open spec fn number_width(count: nat) -> nat {
    decimal(count).len()
}

/// What stands before the subtitle of option `i`: its number and its name, each
/// filled up to its column.
pub open spec fn option_lead(row: RowText, i: nat, chosen: bool, number_w: nat, name_w: nat) -> Seq<
    char,
> {
    if chosen {
        CHOSEN@ + padded(decimal(i + 1), number_w) + " "@ + padded(row.main, name_w) + CHOSEN_SUB@
    } else {
        UNCHOSEN@ + padded(decimal(i + 1), number_w) + " "@ + padded(row.main, name_w)
            + UNCHOSEN_SUB@
    }
}

/// The line of option `i`, without its line break.
pub open spec fn option_text(
    row: RowText,
    i: nat,
    chosen: bool,
    number_w: nat,
    name_w: nat,
    cols: nat,
) -> Seq<char> {
    option_lead(row, i, chosen, number_w, name_w) + cut_sub(row.sub, name_w, cols) + PLAIN@
}

/// The lines of the first `upto` options.
pub open spec fn options(rows: Seq<RowText>, upto: nat, sel: nat, cols: nat) -> Seq<char>
    decreases upto,
{
    if upto == 0 {
        Seq::empty()
    } else {
        let i = (upto - 1) as nat;
        options(rows, i, sel, cols) + option_text(
            rows[i as int],
            i,
            i == sel,
            number_width(rows.len()),
            name_width(rows),
            cols,
        ) + EOL@
    }
}

/// The rules above and below the options.
pub open spec fn rule(cols: nat) -> Seq<char> {
    repeated(
        '─',
        if cols < 8 {
            0
        } else if cols < 68 {
            (cols - 8) as nat
        } else {
            60
        },
    )
}

/// What stands above the options.
pub open spec fn header(cols: nat) -> Seq<char> {
    CLEAR@ + EOL@ + EOL@ + TITLE@ + EOL@ + DIM@ + rule(cols) + PLAIN@ + EOL@ + EOL@
}

/// What stands below the options.
pub open spec fn footer(cols: nat, note: Option<Seq<char>>) -> Seq<char> {
    let help = EOL@ + DIM@ + rule(cols) + PLAIN@ + EOL@ + HELP@ + EOL@;
    match note {
        Some(n) => help + NOTE@ + n + NOTE_END@ + EOL@,
        None => help,
    }
}

/// The whole frame.
pub open spec fn frame(rows: Seq<RowText>, sel: nat, note: Option<Seq<char>>, cols: nat) -> Seq<
    char,
> {
    header(cols) + options(rows, rows.len(), sel, cols) + footer(cols, note)
}

fn digit_text(d: u8) -> (r: &'static str)
    requires
        d < 10,
    ensures
        r@ == seq![digit(d as nat)],
{
    proof {
        reveal_strlit("0");
        reveal_strlit("1");
        reveal_strlit("2");
        reveal_strlit("3");
        reveal_strlit("4");
        reveal_strlit("5");
        reveal_strlit("6");
        reveal_strlit("7");
        reveal_strlit("8");
        reveal_strlit("9");
    }
    let r = match d {
        0 => "0",
        1 => "1",
        2 => "2",
        3 => "3",
        4 => "4",
        5 => "5",
        6 => "6",
        7 => "7",
        8 => "8",
        _ => "9",
    };
    assert(r@ =~= seq![digit(d as nat)]);
    r
}

/// A number in decimal digits.
pub fn decimal_text(n: usize) -> (r: String)
    ensures
        r@ == decimal(n as nat),
    decreases n,
{
    if n < 10 {
        digit_text(n as u8).to_owned()
    } else {
        let mut r = decimal_text(n / 10);
        r.append(digit_text((n % 10) as u8));
        assert(r@ =~= decimal((n / 10) as nat).push(digit((n % 10) as nat)));
        r
    }
}

fn fill(out: &mut String, piece: &str, c: Ghost<char>, n: usize)
    requires
        piece@ == seq![c@],
    ensures
        final(out)@ == old(out)@ + repeated(c@, n as nat),
{
    let mut i: usize = 0;
    assert(old(out)@ + repeated(c@, 0) =~= old(out)@);
    while i < n
        invariant
            i <= n,
            piece@ == seq![c@],
            out@ == old(out)@ + repeated(c@, i as nat),
        decreases n - i,
    {
        out.append(piece);
        assert(out@ =~= old(out)@ + repeated(c@, (i + 1) as nat));
        i += 1;
    }
}

fn padded_text(s: &str, width: usize) -> (r: String)
    ensures
        r@ == padded(s@, width as nat),
{
    proof {
        reveal_strlit(" ");
        assert(" "@ =~= seq![' ']);
    }
    let n: usize = s.unicode_len();
    let mut r = s.to_owned();
    fill(
        &mut r,
        " ",
        Ghost(' '),
        if n < width {
            width - n
        } else {
            0
        },
    );
    r
}

fn rule_text(cols: usize) -> (r: String)
    ensures
        r@ == rule(cols as nat),
{
    proof {
        reveal_strlit("─");
        assert("─"@ =~= seq!['─']);
    }
    let width: usize = if cols < 8 {
        0
    } else if cols < 68 {
        cols - 8
    } else {
        60
    };
    let mut r = String::new();
    fill(&mut r, "─", Ghost('─'), width);
    assert(r@ =~= rule(cols as nat));
    r
}

/// The width of the name column.
pub(crate) fn name_column(rows: &[Row]) -> (r: usize)
    ensures
        r == name_width(row_texts(rows@)),
{
    let mut w: usize = 0;
    let mut i: usize = 0;
    let ghost all = row_texts(rows@);
    while i < rows.len()
        invariant
            i <= rows@.len(),
            all == row_texts(rows@),
            w == name_width(all.take(i as int)),
        decreases rows@.len() - i,
    {
        let n: usize = rows[i].main.as_str().as_bytes().len();
        proof {
            assert(all.take(i + 1).drop_last() =~= all.take(i as int));
            assert(all.take(i + 1).last() == rows@[i as int]@);
        }
        if w < n {
            w = n;
        }
        i += 1;
    }
    assert(all.take(i as int) =~= all);
    w
}

fn option_line(
    row: &Row,
    i: usize,
    chosen: bool,
    number_w: usize,
    name_w: usize,
    cols: usize,
) -> (r: String)
    requires
        i < usize::MAX,
    ensures
        r@ == option_text(row@, i as nat, chosen, number_w as nat, name_w as nat, cols as nat),
{
    let n: usize = row.sub.as_str().unicode_len();
    let room: usize = cols.saturating_sub(name_w).saturating_sub(14);
    let cut: usize = if room < n {
        room
    } else {
        n
    };
    let sub = row.sub.as_str().substring_char(0, cut);
    assert(sub@ =~= cut_sub(row.sub@, name_w as nat, cols as nat));
    let mut r = (if chosen {
        CHOSEN
    } else {
        UNCHOSEN
    }).to_owned();
    r.append(padded_text(decimal_text(i + 1).as_str(), number_w).as_str());
    r.append(" ");
    r.append(padded_text(row.main.as_str(), name_w).as_str());
    r.append(
        if chosen {
            CHOSEN_SUB
        } else {
            UNCHOSEN_SUB
        },
    );
    r.append(sub);
    r.append(PLAIN);
    r
}

/// The frame that shows the menu on a terminal of `cols` columns, with option
/// `sel` chosen and the note, if any, below.
pub fn draw(rows: &[Row], sel: usize, note: Option<&str>, cols: usize) -> (r: String)
    ensures
        r@ == frame(row_texts(rows@), sel as nat, opt_str(note), cols as nat),
{
    let name_w: usize = name_column(rows);
    let line = rule_text(cols);
    let mut top = CLEAR.to_owned();
    top.append(EOL);
    top.append(EOL);
    top.append(TITLE);
    top.append(EOL);
    top.append(DIM);
    top.append(line.as_str());
    top.append(PLAIN);
    top.append(EOL);
    top.append(EOL);
    let mut middle = String::new();
    let ghost all = row_texts(rows@);
    let mut i: usize = 0;
    let count: usize = rows.len();
    let number_w: usize = decimal_text(count).as_str().unicode_len();
    while i < count
        invariant
            i <= count,
            count == rows@.len(),
            all == row_texts(rows@),
            name_w == name_width(all),
            number_w == number_width(all.len()),
            middle@ == options(all, i as nat, sel as nat, cols as nat),
        decreases count - i,
    {
        middle.append(option_line(&rows[i], i, i == sel, number_w, name_w, cols).as_str());
        middle.append(EOL);
        i += 1;
    }
    let mut below = EOL.to_owned();
    below.append(DIM);
    below.append(line.as_str());
    below.append(PLAIN);
    below.append(EOL);
    below.append(HELP);
    below.append(EOL);
    if let Some(n) = note {
        below.append(NOTE);
        below.append(n);
        below.append(NOTE_END);
        below.append(EOL);
    }
    top.append(middle.as_str());
    top.append(below.as_str());
    top
}

/// The columns of a terminal.
pub open spec fn cols_of(reported: Option<u16>) -> usize {
    match reported {
        Some(c) => if c > 0 {
            c as usize
        } else {
            80
        },
        None => 80,
    }
}

/// The columns of a terminal: what it reports, else eighty.
pub fn term_cols(reported: Option<u16>) -> (r: usize)
    ensures
        r == (match reported {
            Some(c) => if c > 0 {
                c as usize
            } else {
                80
            },
            None => 80,
        }),
        r == cols_of(reported),
{
    match reported {
        Some(c) => if c > 0 {
            c as usize
        } else {
            80
        },
        None => 80,
    }
}

// --- the keys ---------------------------------------------------------------

/// What a key does to the menu.
#[derive(Debug, Clone, Copy, PartialEq, Eq, Structural)]
pub enum MenuStep {
    Stay,
    Pick(usize),
    Cancel,
}

/// The option chosen after a key.
pub open spec fn sel_after(rows: nat, sel: nat, key: Key) -> nat {
    match key {
        Key::Up => if sel == 0 {
            (rows - 1) as nat
        } else {
            (sel - 1) as nat
        },
        Key::Down => if sel + 1 == rows {
            0
        } else {
            sel + 1
        },
        _ => sel,
    }
}

/// What a key decides.
pub open spec fn step_after(rows: nat, sel: nat, key: Key) -> MenuStep {
    match key {
        Key::Digit(d) => if 1 <= d <= rows {
            MenuStep::Pick((d - 1) as usize)
        } else {
            MenuStep::Stay
        },
        Key::Click { y } => if FIRST_ROW_Y <= y < FIRST_ROW_Y + rows {
            MenuStep::Pick((y - FIRST_ROW_Y) as usize)
        } else {
            MenuStep::Stay
        },
        Key::Enter => MenuStep::Pick(sel as usize),
        Key::Cancel => MenuStep::Cancel,
        _ => MenuStep::Stay,
    }
}

/// A menu with a chosen option.
pub struct Menu {
    rows: usize,
    sel: usize,
}

impl Menu {
    pub closed spec fn rows(self) -> nat {
        self.rows as nat
    }

    pub closed spec fn sel(self) -> nat {
        self.sel as nat
    }

    pub open spec fn wf(self) -> bool {
        self.sel() < self.rows() <= usize::MAX
    }

    /// A menu of so many rows, with the first one chosen.
    pub fn new(rows: usize) -> (r: Menu)
        requires
            rows > 0,
        ensures
            r.wf(),
            r.rows() == rows,
            r.sel() == 0,
    {
        Menu { rows, sel: 0 }
    }

    /// The chosen option.
    pub fn selected(&self) -> (r: usize)
        ensures
            r == self.sel(),
    {
        self.sel
    }

    /// Takes a key: moves the choice, or ends the menu.
    pub fn press(&mut self, key: Key) -> (r: MenuStep)
        requires
            old(self).wf(),
        ensures
            final(self).wf(),
            final(self).rows() == old(self).rows(),
            final(self).sel() == sel_after(old(self).rows(), old(self).sel(), key),
            r == step_after(old(self).rows(), old(self).sel(), key),
    {
        match key {
            Key::Up => {
                self.sel = if self.sel == 0 {
                    self.rows - 1
                } else {
                    self.sel - 1
                };
                MenuStep::Stay
            },
            Key::Down => {
                self.sel = if self.sel + 1 == self.rows {
                    0
                } else {
                    self.sel + 1
                };
                MenuStep::Stay
            },
            Key::Digit(d) => if d >= 1 && d as usize <= self.rows {
                MenuStep::Pick(d as usize - 1)
            } else {
                MenuStep::Stay
            },
            Key::Click { y } => if y as usize >= FIRST_ROW_Y && y as usize - FIRST_ROW_Y
                < self.rows {
                MenuStep::Pick(y as usize - FIRST_ROW_Y)
            } else {
                MenuStep::Stay
            },
            Key::Enter => MenuStep::Pick(self.sel),
            Key::Cancel => MenuStep::Cancel,
            Key::Other => MenuStep::Stay,
        }
    }
}

// --- laws -------------------------------------------------------------------

/// Number of line feeds in a text.
pub open spec fn line_feeds(s: Seq<char>) -> nat
    decreases s.len(),
{
    if s.len() == 0 {
        0
    } else {
        line_feeds(s.drop_last()) + if s.last() == '\n' {
            1nat
        } else {
            0
        }
    }
}

/// A text that stays on one line.
pub open spec fn one_line(s: Seq<char>) -> bool {
    forall|i: int| 0 <= i < s.len() ==> #[trigger] s[i] != '\n'
}

proof fn lemma_one_line(s: Seq<char>)
    requires
        one_line(s),
    ensures
        line_feeds(s) == 0,
    decreases s.len(),
{
    if s.len() > 0 {
        lemma_one_line(s.drop_last());
    }
}

proof fn lemma_line_feeds_add(a: Seq<char>, b: Seq<char>)
    ensures
        line_feeds(a + b) == line_feeds(a) + line_feeds(b),
    decreases b.len(),
{
    if b.len() == 0 {
        assert(a + b =~= a);
    } else {
        lemma_line_feeds_add(a, b.drop_last());
        assert((a + b).drop_last() =~= a + b.drop_last());
    }
}

proof fn lemma_eol()
    ensures
        line_feeds(EOL@) == 1,
{
    reveal_strlit("\r\n");
    reveal_with_fuel(line_feeds, 3);
    assert(EOL@.drop_last() =~= seq!['\r']);
}

proof fn lemma_fixed_texts_are_one_line()
    ensures
        one_line(CLEAR@),
        one_line(TITLE@),
        one_line(DIM@),
        one_line(PLAIN@),
        one_line(CHOSEN@),
        one_line(CHOSEN_SUB@),
        one_line(UNCHOSEN@),
        one_line(UNCHOSEN_SUB@),
        one_line(" "@),
{
    reveal_strlit("\x1b[2J\x1b[H");
    reveal_strlit("    \x1b[1mNew workspace on...\x1b[0m");
    reveal_strlit("    \x1b[2m");
    reveal_strlit("\x1b[0m");
    reveal_strlit("    \x1b[7;1m > ");
    reveal_strlit(" \x1b[0m\x1b[2m  ");
    reveal_strlit("       ");
    reveal_strlit("\x1b[2m   ");
    reveal_strlit(" ");
}

proof fn lemma_decimal_is_one_line(n: nat)
    ensures
        one_line(decimal(n)),
    decreases n,
{
    if n >= 10 {
        lemma_decimal_is_one_line(n / 10);
    }
}

proof fn lemma_header_lines(cols: nat)
    ensures
        line_feeds(header(cols)) == FIRST_ROW_Y - 1,
{
    lemma_fixed_texts_are_one_line();
    lemma_eol();
    let p1 = CLEAR@ + EOL@;
    let p2 = p1 + EOL@;
    let p3 = p2 + TITLE@;
    let p4 = p3 + EOL@;
    let p5 = p4 + DIM@;
    let p6 = p5 + rule(cols);
    let p7 = p6 + PLAIN@;
    let p8 = p7 + EOL@;
    lemma_one_line(CLEAR@);
    lemma_one_line(TITLE@);
    lemma_one_line(DIM@);
    lemma_one_line(rule(cols));
    lemma_one_line(PLAIN@);
    lemma_line_feeds_add(CLEAR@, EOL@);
    lemma_line_feeds_add(p1, EOL@);
    lemma_line_feeds_add(p2, TITLE@);
    lemma_line_feeds_add(p3, EOL@);
    lemma_line_feeds_add(p4, DIM@);
    lemma_line_feeds_add(p5, rule(cols));
    lemma_line_feeds_add(p6, PLAIN@);
    lemma_line_feeds_add(p7, EOL@);
    lemma_line_feeds_add(p8, EOL@);
}

proof fn lemma_option_is_one_line(
    row: RowText,
    i: nat,
    chosen: bool,
    number_w: nat,
    name_w: nat,
    cols: nat,
)
    requires
        one_line(row.main),
        one_line(row.sub),
    ensures
        line_feeds(option_text(row, i, chosen, number_w, name_w, cols)) == 0,
{
    lemma_fixed_texts_are_one_line();
    lemma_decimal_is_one_line(i + 1);
    lemma_one_line(option_text(row, i, chosen, number_w, name_w, cols));
}

/// A click lands on the option that is drawn under it: the frame starts with
/// what stands above option `i`, which takes up the rows before
/// `FIRST_ROW_Y + i`, and goes on with the line of option `i`; a click in that
/// row picks `i`.
pub proof fn law_click_meets_the_option_drawn(
    rows: Seq<RowText>,
    sel: nat,
    note: Option<Seq<char>>,
    cols: nat,
    i: nat,
)
    requires
        i < rows.len(),
        FIRST_ROW_Y + i <= u32::MAX,
        forall|j: int| 0 <= j < rows.len() ==> one_line((#[trigger] rows[j]).main),
        forall|j: int| 0 <= j < rows.len() ==> one_line((#[trigger] rows[j]).sub),
    ensures
        line_feeds(header(cols) + options(rows, i, sel, cols)) == FIRST_ROW_Y + i - 1,
        (header(cols) + options(rows, i, sel, cols) + option_text(
            rows[i as int],
            i,
            i == sel,
            number_width(rows.len()),
            name_width(rows),
            cols,
        )).is_prefix_of(frame(rows, sel, note, cols)),
        step_after(rows.len(), sel, Key::Click { y: (FIRST_ROW_Y + i) as u32 })
            == MenuStep::Pick(i as usize),
{
    lemma_header_lines(cols);
    lemma_line_feeds_add(header(cols), options(rows, i, sel, cols));
    lemma_options_lines(rows, i, sel, cols);
    lemma_option_is_in_the_frame(rows, sel, note, cols, i);
}

proof fn lemma_option_is_in_the_frame(
    rows: Seq<RowText>,
    sel: nat,
    note: Option<Seq<char>>,
    cols: nat,
    i: nat,
)
    requires
        i < rows.len(),
    ensures
        (header(cols) + options(rows, i, sel, cols) + option_text(
            rows[i as int],
            i,
            i == sel,
            number_width(rows.len()),
            name_width(rows),
            cols,
        )).is_prefix_of(frame(rows, sel, note, cols)),
{
    lemma_options_prefix(rows, i + 1, sel, cols);
    let line = option_text(rows[i as int], i, i == sel, number_width(rows.len()), name_width(rows), cols);
    let upto = options(rows, i + 1, sel, cols);
    assert(upto == options(rows, i, sel, cols) + line + EOL@);
    let all = options(rows, rows.len(), sel, cols);
    let shown = header(cols) + options(rows, i, sel, cols) + line;
    let whole = frame(rows, sel, note, cols);
    assert forall|k: int| 0 <= k < shown.len() implies shown[k] == whole[k] by {
        if k >= header(cols).len() {
            let m = k - header(cols).len();
            assert(shown[k] == upto[m]);
            assert(upto[m] == all.subrange(0, upto.len() as int)[m]);
        }
    }
    assert(shown =~= whole.subrange(0, shown.len() as int));
}

proof fn lemma_options_lines(rows: Seq<RowText>, upto: nat, sel: nat, cols: nat)
    requires
        upto <= rows.len(),
        forall|j: int| 0 <= j < rows.len() ==> one_line((#[trigger] rows[j]).main),
        forall|j: int| 0 <= j < rows.len() ==> one_line((#[trigger] rows[j]).sub),
    ensures
        line_feeds(options(rows, upto, sel, cols)) == upto,
    decreases upto,
{
    if upto > 0 {
        let i = (upto - 1) as nat;
        let before = options(rows, i, sel, cols);
        let line = option_text(rows[i as int], i, i == sel, number_width(rows.len()), name_width(rows), cols);
        lemma_options_lines(rows, i, sel, cols);
        lemma_option_is_one_line(rows[i as int], i, i == sel, number_width(rows.len()), name_width(rows), cols);
        lemma_eol();
        lemma_line_feeds_add(before, line);
        lemma_line_feeds_add(before + line, EOL@);
    }
}

proof fn lemma_options_prefix(rows: Seq<RowText>, upto: nat, sel: nat, cols: nat)
    requires
        upto <= rows.len(),
    ensures
        options(rows, upto, sel, cols).is_prefix_of(options(rows, rows.len(), sel, cols)),
    decreases rows.len() - upto,
{
    let a = options(rows, upto, sel, cols);
    let all = options(rows, rows.len(), sel, cols);
    if upto == rows.len() {
        assert(a =~= all.subrange(0, a.len() as int));
    } else {
        lemma_options_prefix(rows, upto + 1, sel, cols);
        let b = options(rows, upto + 1, sel, cols);
        assert(a =~= b.subrange(0, a.len() as int));
        assert(a =~= all.subrange(0, a.len() as int)) by {
            assert forall|k: int| 0 <= k < a.len() implies a[k] == all[k] by {
                assert(b[k] == all.subrange(0, b.len() as int)[k]);
            }
        }
    }
}

/// Where a text leaves a terminal: amid plain text, after an escape byte, or
/// within a control sequence.
pub enum Amid {
    Plain,
    Escape,
    Sequence,
}

/// Where a text leaves a terminal that starts amid plain text.
pub open spec fn amid_after(s: Seq<char>) -> Amid
    decreases s.len(),
{
    if s.len() == 0 {
        Amid::Plain
    } else {
        match amid_after(s.drop_last()) {
            Amid::Plain => if s.last() == '\x1b' {
                Amid::Escape
            } else {
                Amid::Plain
            },
            Amid::Escape => if s.last() == '[' {
                Amid::Sequence
            } else {
                Amid::Plain
            },
            Amid::Sequence => if '\x40' <= s.last() <= '\x7e' {
                Amid::Plain
            } else {
                Amid::Sequence
            },
        }
    }
}

/// The columns that a line takes up on the screen: one for each character that
/// is no part of an escape sequence.
pub open spec fn columns(s: Seq<char>) -> nat
    decreases s.len(),
{
    if s.len() == 0 {
        0
    } else {
        columns(s.drop_last()) + if amid_after(s.drop_last()) == Amid::Plain && s.last() != '\x1b' {
            1nat
        } else {
            0
        }
    }
}

/// A text without control characters.
pub open spec fn printable(s: Seq<char>) -> bool {
    forall|i: int|
        0 <= i < s.len() ==> '\x20' <= #[trigger] s[i] && !('\x7f' <= s[i] && s[i] <= '\u{9f}')
}

proof fn lemma_printable_columns(s: Seq<char>)
    requires
        printable(s),
    ensures
        columns(s) == s.len(),
        amid_after(s) == Amid::Plain,
    decreases s.len(),
{
    if s.len() > 0 {
        lemma_printable_columns(s.drop_last());
    }
}

proof fn lemma_columns_add(a: Seq<char>, b: Seq<char>)
    requires
        amid_after(a) == Amid::Plain,
    ensures
        columns(a + b) == columns(a) + columns(b),
        amid_after(a + b) == amid_after(b),
    decreases b.len(),
{
    if b.len() == 0 {
        assert(a + b =~= a);
    } else {
        lemma_columns_add(a, b.drop_last());
        assert((a + b).drop_last() =~= a + b.drop_last());
    }
}

proof fn lemma_fixed_columns()
    ensures
        columns(CHOSEN@) == 7,
        amid_after(CHOSEN@) == Amid::Plain,
        columns(UNCHOSEN@) == 7,
        amid_after(UNCHOSEN@) == Amid::Plain,
        columns(CHOSEN_SUB@) == 3,
        amid_after(CHOSEN_SUB@) == Amid::Plain,
        columns(UNCHOSEN_SUB@) == 3,
        amid_after(UNCHOSEN_SUB@) == Amid::Plain,
        columns(PLAIN@) == 0,
        columns(" "@) == 1,
        amid_after(" "@) == Amid::Plain,
{
    reveal_strlit("    \x1b[7;1m > ");
    reveal_strlit("       ");
    reveal_strlit(" \x1b[0m\x1b[2m  ");
    reveal_strlit("\x1b[2m   ");
    reveal_strlit("\x1b[0m");
    reveal_strlit(" ");
    let invert = seq!['\x1b', '[', '7', ';', '1', 'm'];
    let plain = seq!['\x1b', '[', '0', 'm'];
    let dim = seq!['\x1b', '[', '2', 'm'];
    lemma_sequence_columns(seq!['7', ';', '1'], 'm');
    lemma_sequence_columns(seq!['0'], 'm');
    lemma_sequence_columns(seq!['2'], 'm');
    assert(seq!['\x1b', '['] + seq!['7', ';', '1'] + seq!['m'] =~= invert);
    assert(seq!['\x1b', '['] + seq!['0'] + seq!['m'] =~= plain);
    assert(seq!['\x1b', '['] + seq!['2'] + seq!['m'] =~= dim);
    let four = repeated(' ', 4);
    let mark = seq![' ', '>', ' '];
    assert(CHOSEN@ =~= four + invert + mark);
    lemma_printable_columns(four);
    lemma_printable_columns(mark);
    lemma_columns_add(four, invert);
    lemma_columns_add(four + invert, mark);
    lemma_printable_columns(UNCHOSEN@);
    assert(CHOSEN_SUB@ =~= " "@ + plain + dim + repeated(' ', 2));
    lemma_printable_columns(" "@);
    lemma_printable_columns(repeated(' ', 2));
    lemma_columns_add(" "@, plain);
    lemma_columns_add(" "@ + plain, dim);
    lemma_columns_add(" "@ + plain + dim, repeated(' ', 2));
    assert(UNCHOSEN_SUB@ =~= dim + repeated(' ', 3));
    lemma_printable_columns(repeated(' ', 3));
    lemma_columns_add(dim, repeated(' ', 3));
    assert(PLAIN@ =~= plain);
}

proof fn lemma_within_sequence(params: Seq<char>)
    requires
        forall|i: int| 0 <= i < params.len() ==> !('\x40' <= #[trigger] params[i] <= '\x7e'),
    ensures
        columns(seq!['\x1b', '['] + params) == 0,
        amid_after(seq!['\x1b', '['] + params) == Amid::Sequence,
    decreases params.len(),
{
    let head = seq!['\x1b', '['];
    if params.len() == 0 {
        assert(head + params =~= head);
        assert(head.drop_last() =~= seq!['\x1b']);
        assert(seq!['\x1b'].drop_last() =~= Seq::empty());
        reveal_with_fuel(columns, 3);
        reveal_with_fuel(amid_after, 3);
    } else {
        lemma_within_sequence(params.drop_last());
        assert((head + params).drop_last() =~= head + params.drop_last());
    }
}

proof fn lemma_sequence_columns(params: Seq<char>, fin: char)
    requires
        forall|i: int| 0 <= i < params.len() ==> !('\x40' <= #[trigger] params[i] <= '\x7e'),
        '\x40' <= fin <= '\x7e',
    ensures
        columns(seq!['\x1b', '['] + params + seq![fin]) == 0,
        amid_after(seq!['\x1b', '['] + params + seq![fin]) == Amid::Plain,
{
    lemma_within_sequence(params);
    let head = seq!['\x1b', '['] + params;
    assert((head + seq![fin]).drop_last() =~= head);
}

proof fn lemma_name_fits(rows: Seq<RowText>, i: int)
    requires
        0 <= i < rows.len(),
    ensures
        rows[i].main.len() <= name_width(rows),
    decreases rows.len(),
{
    if i == rows.len() - 1 {
        lemma_bytes_cover_chars(rows[i].main);
    } else {
        lemma_name_fits(rows.drop_last(), i);
        assert(rows.drop_last()[i] == rows[i]);
    }
}

proof fn lemma_decimal_grows(a: nat, b: nat)
    requires
        a <= b,
    ensures
        decimal(a).len() <= decimal(b).len(),
    decreases b,
{
    if a >= 10 {
        lemma_decimal_grows(a / 10, b / 10);
    } else if b >= 10 {
        lemma_decimal_grows(0, b / 10);
    }
}

proof fn lemma_decimal_is_printable(n: nat)
    ensures
        printable(decimal(n)),
    decreases n,
{
    if n >= 10 {
        lemma_decimal_is_printable(n / 10);
    }
}

proof fn lemma_lead_columns(rows: Seq<RowText>, sel: nat, i: nat)
    requires
        i < rows.len(),
        printable(rows[i as int].main),
    ensures
        columns(lead_of(rows, sel, i)) == number_width(rows.len()) + name_width(rows) + 11,
        amid_after(lead_of(rows, sel, i)) == Amid::Plain,
{
    let number = padded(decimal(i + 1), number_width(rows.len()));
    let name = padded(rows[i as int].main, name_width(rows));
    let chosen = i == sel;
    let p0 = if chosen {
        CHOSEN@
    } else {
        UNCHOSEN@
    };
    let p1 = p0 + number;
    let p2 = p1 + " "@;
    let p3 = p2 + name;
    let end = if chosen {
        CHOSEN_SUB@
    } else {
        UNCHOSEN_SUB@
    };
    lemma_fixed_columns();
    lemma_decimal_is_printable(i + 1);
    lemma_decimal_grows(i + 1, rows.len());
    lemma_name_fits(rows, i as int);
    lemma_printable_columns(number);
    lemma_printable_columns(name);
    lemma_columns_add(p0, number);
    lemma_columns_add(p1, " "@);
    lemma_columns_add(p2, name);
    lemma_columns_add(p3, end);
}

/// What stands before the subtitle of option `i` in the frame of these rows.
pub open spec fn lead_of(rows: Seq<RowText>, sel: nat, i: nat) -> Seq<char> {
    option_lead(rows[i as int], i, i == sel, number_width(rows.len()), name_width(rows))
}

/// The subtitles of one frame line up: what stands before that of one option
/// takes up as many columns as what stands before that of any other, chosen or
/// not. The lines meant are those that the frame shows.
pub proof fn law_subtitles_line_up(
    rows: Seq<RowText>,
    sel: nat,
    note: Option<Seq<char>>,
    cols: nat,
    i: nat,
    j: nat,
)
    requires
        i < rows.len(),
        j < rows.len(),
        printable(rows[i as int].main),
        printable(rows[j as int].main),
    ensures
        columns(lead_of(rows, sel, i)) == columns(lead_of(rows, sel, j)),
        columns(lead_of(rows, sel, i)) == number_width(rows.len()) + name_width(rows) + 11,
        (header(cols) + options(rows, i, sel, cols) + lead_of(rows, sel, i) + cut_sub(
            rows[i as int].sub,
            name_width(rows),
            cols,
        )).is_prefix_of(frame(rows, sel, note, cols)),
{
    lemma_lead_columns(rows, sel, i);
    lemma_lead_columns(rows, sel, j);
    lemma_option_is_in_the_frame(rows, sel, note, cols, i);
    let sub = cut_sub(rows[i as int].sub, name_width(rows), cols);
    let before = header(cols) + options(rows, i, sel, cols);
    let shown = before + lead_of(rows, sel, i) + sub;
    let line = before + (lead_of(rows, sel, i) + sub + PLAIN@);
    let whole = frame(rows, sel, note, cols);
    assert forall|k: int| 0 <= k < shown.len() implies shown[k] == whole[k] by {
        assert(shown[k] == line[k]);
        assert(line[k] == whole.subrange(0, line.len() as int)[k]);
    }
    assert(shown =~= whole.subrange(0, shown.len() as int));
}

/// The line of an option keeps to the width of the popup where the names leave
/// any room for subtitles.
pub proof fn law_options_keep_to_the_width(rows: Seq<RowText>, sel: nat, cols: nat, i: nat)
    requires
        i < rows.len() < 1000,
        printable(rows[i as int].main),
        printable(rows[i as int].sub),
        name_width(rows) + 14 <= cols,
    ensures
        columns(
            option_text(
                rows[i as int],
                i,
                i == sel,
                number_width(rows.len()),
                name_width(rows),
                cols,
            ),
        ) <= cols,
{
    let sub = cut_sub(rows[i as int].sub, name_width(rows), cols);
    let lead = lead_of(rows, sel, i);
    lemma_lead_columns(rows, sel, i);
    lemma_fixed_columns();
    lemma_printable_columns(sub);
    lemma_columns_add(lead, sub);
    lemma_columns_add(lead + sub, PLAIN@);
    lemma_decimal_grows(rows.len(), 999);
    reveal_with_fuel(decimal, 4);
}

/// A subtitle is cut to the room that the popup leaves beside the names, and not
/// cut where it fits.
pub proof fn law_subtitle_keeps_to_its_room(sub: Seq<char>, name_w: nat, cols: nat)
    ensures
        cut_sub(sub, name_w, cols).is_prefix_of(sub),
        name_w + 14 <= cols ==> name_w + 14 + cut_sub(sub, name_w, cols).len() <= cols,
        name_w + 14 + sub.len() <= cols ==> cut_sub(sub, name_w, cols) == sub,
{
}

/// Moving up and moving down undo each other, also around the ends.
pub proof fn law_up_and_down_undo_each_other(rows: nat, sel: nat)
    requires
        sel < rows,
    ensures
        sel_after(rows, sel_after(rows, sel, Key::Up), Key::Down) == sel,
        sel_after(rows, sel_after(rows, sel, Key::Down), Key::Up) == sel,
{
}

/// No key leaves the menu without a chosen option or picks a row that is not
/// there.
pub proof fn law_choice_stays_in_the_menu(rows: nat, sel: nat, key: Key)
    requires
        sel < rows <= usize::MAX,
    ensures
        sel_after(rows, sel, key) < rows,
        step_after(rows, sel, key) matches MenuStep::Pick(i) ==> i < rows,
{
}

/// The picker always offers this machine, also where no host is known; each
/// further row carries the name of the host that a pick of it means.
pub proof fn law_rows_name_what_they_pick(
    hosts: Seq<HostText>,
    default_host: Option<Seq<char>>,
    cwd: Option<Seq<char>>,
    home: Option<Seq<char>>,
)
    ensures
        all_rows(hosts, default_host, cwd, home).len() == hosts.len() + 1,
        all_rows(hosts, default_host, cwd, home)[0].main == "this machine"@,
        forall|i: int|
            0 < i <= hosts.len() ==> (#[trigger] all_rows(hosts, default_host, cwd, home)[i]).main
                == hosts[i - 1].name,
{
}

/// A control sequence that is neither an arrow nor a mouse report never chooses:
/// read as keys, it leaves the choice where it is and ends nothing.
pub proof fn law_report_leaves_the_menu_alone(params: Seq<u8>, fin: u8, rows: nat, sel: nat)
    requires
        forall|i: int| 0 <= i < params.len() ==> !is_final(#[trigger] params[i]),
        is_final(fin),
        fin != 'A' as u8,
        fin != 'B' as u8,
        params.len() == 0 || params[0] != '<' as u8,
    ensures
        forall|k: int|
            0 <= k < keys(Seq::empty(), control_sequence(params, fin)).len() ==> {
                let key = #[trigger] keys(Seq::empty(), control_sequence(params, fin))[k];
                step_after(rows, sel, key) == MenuStep::Stay && sel_after(rows, sel, key) == sel
            },
{
    law_report_is_no_choice(params, fin);
}

/// A control string, such as the answer to a query for a colour, never chooses:
/// whatever it holds, read as keys it leaves the choice where it is and ends
/// nothing.
pub proof fn law_control_string_leaves_the_menu_alone(
    open: u8,
    body: Seq<u8>,
    end: Seq<u8>,
    rows: nat,
    sel: nat,
)
    requires
        opens_string(open),
        open_body(body),
        is_string_end(end),
    ensures
        forall|k: int|
            0 <= k < keys(Seq::empty(), control_string(open, body, end)).len() ==> {
                let key = #[trigger] keys(Seq::empty(), control_string(open, body, end))[k];
                step_after(rows, sel, key) == MenuStep::Stay && sel_after(rows, sel, key) == sel
            },
{
    law_control_string_is_taken_whole(open, body, end, Seq::empty());
    assert(control_string(open, body, end) + Seq::<u8>::empty() =~= control_string(
        open,
        body,
        end,
    ));
}

/// An escape sequence with intermediate bytes never chooses: read as keys, it
/// leaves the choice where it is and ends nothing.
pub proof fn law_escape_sequence_leaves_the_menu_alone(
    between: Seq<u8>,
    fin: u8,
    rows: nat,
    sel: nat,
)
    requires
        between.len() > 0,
        forall|i: int| 0 <= i < between.len() ==> is_intermediate(#[trigger] between[i]),
        0x30 <= fin <= 0x7e,
    ensures
        forall|k: int|
            0 <= k < keys(Seq::empty(), escape_sequence(between, fin)).len() ==> {
                let key = #[trigger] keys(Seq::empty(), escape_sequence(between, fin))[k];
                step_after(rows, sel, key) == MenuStep::Stay && sel_after(rows, sel, key) == sel
            },
{
    law_escape_sequence_is_taken_whole(between, fin, Seq::empty());
    assert(escape_sequence(between, fin) + Seq::<u8>::empty() =~= escape_sequence(between, fin));
}

/// Enter picks the chosen row, whichever it is; a digit picks the row of that number
/// and a click the row under it, where there is one; `Cancel` leaves. No other key
/// ends the menu.
pub proof fn law_keys_pick_the_rows_they_mean(rows: nat, sel: nat, key: Key, i: usize)
    requires
        sel < rows <= usize::MAX,
    ensures
        step_after(rows, sel, Key::Enter) == MenuStep::Pick(sel as usize),
        step_after(rows, sel, key) == MenuStep::Pick(i) <==> i < rows && match key {
            Key::Enter => i == sel,
            Key::Digit(d) => d == i + 1,
            Key::Click { y } => y == i + 6,
            _ => false,
        },
        step_after(rows, sel, key) == MenuStep::Cancel <==> key is Cancel,
        key is Up || key is Down || key is Other ==> step_after(rows, sel, key) == MenuStep::Stay,
{
}

/// The arrows move the choice by one row, around the ends; no other key moves it.
pub proof fn law_arrows_move_by_one_row(rows: nat, sel: nat, key: Key)
    requires
        sel < rows,
    ensures
        sel > 0 ==> sel_after(rows, sel, Key::Up) == sel - 1,
        sel == 0 ==> sel_after(rows, sel, Key::Up) == rows - 1,
        sel + 1 < rows ==> sel_after(rows, sel, Key::Down) == sel + 1,
        sel + 1 == rows ==> sel_after(rows, sel, Key::Down) == 0,
        !(key is Up) && !(key is Down) ==> sel_after(rows, sel, key) == sel,
{
}

/// Exactly the line of the chosen row is set off by a mark, and enter picks the row
/// whose line that is.
pub proof fn law_enter_picks_the_row_drawn_as_chosen(
    rows: Seq<RowText>,
    sel: nat,
    cols: nat,
    i: nat,
)
    requires
        i < rows.len() <= usize::MAX,
        sel < rows.len(),
    ensures
        ({
            let line = option_text(
                rows[i as int],
                i,
                i == sel,
                number_width(rows.len()),
                name_width(rows),
                cols,
            );
            &&& "    \x1b[7;1m > "@.is_prefix_of(line) <==> i == sel
            &&& "       "@.is_prefix_of(line) <==> i != sel
            &&& "    \x1b[7;1m > "@.is_prefix_of(line) <==> step_after(
                rows.len(),
                sel,
                Key::Enter,
            ) == MenuStep::Pick(i as usize)
        }),
{
    reveal_strlit("    \x1b[7;1m > ");
    reveal_strlit("       ");
    let line = option_text(
        rows[i as int],
        i,
        i == sel,
        number_width(rows.len()),
        name_width(rows),
        cols,
    );
    let mark = "    \x1b[7;1m > "@;
    let blank = "       "@;
    if i == sel {
        assert(mark =~= line.subrange(0, mark.len() as int));
        assert(line.subrange(0, blank.len() as int)[4] == '\x1b');
    } else {
        assert(blank =~= line.subrange(0, blank.len() as int));
        if mark.is_prefix_of(line) {
            assert(line.subrange(0, mark.len() as int)[4] == ' ');
        }
    }
}

/// The line of an option shows, in this order and nothing else but blanks and
/// colours: its number, its name whole, and as much of its subtitle as there is room
/// for.
pub proof fn law_option_shows_number_name_and_subtitle(
    row: RowText,
    i: nat,
    chosen: bool,
    number_w: nat,
    name_w: nat,
    cols: nat,
)
    ensures
        option_text(row, i, chosen, number_w, name_w, cols) == (if chosen {
            "    \x1b[7;1m > "@
        } else {
            "       "@
        }) + decimal(i + 1) + repeated(
            ' ',
            if decimal(i + 1).len() < number_w {
                (number_w - decimal(i + 1).len()) as nat
            } else {
                0
            },
        ) + " "@ + row.main + repeated(
            ' ',
            if row.main.len() < name_w {
                (name_w - row.main.len()) as nat
            } else {
                0
            },
        ) + (if chosen {
            " \x1b[0m\x1b[2m  "@
        } else {
            "\x1b[2m   "@
        }) + cut_sub(row.sub, name_w, cols) + "\x1b[0m"@,
        cut_sub(row.sub, name_w, cols).is_prefix_of(row.sub),
{
    let lead = option_lead(row, i, chosen, number_w, name_w);
    assert(option_text(row, i, chosen, number_w, name_w, cols) =~= (if chosen {
        "    \x1b[7;1m > "@
    } else {
        "       "@
    }) + decimal(i + 1) + repeated(
        ' ',
        if decimal(i + 1).len() < number_w {
            (number_w - decimal(i + 1).len()) as nat
        } else {
            0
        },
    ) + " "@ + row.main + repeated(
        ' ',
        if row.main.len() < name_w {
            (name_w - row.main.len()) as nat
        } else {
            0
        },
    ) + (if chosen {
        " \x1b[0m\x1b[2m  "@
    } else {
        "\x1b[2m   "@
    }) + cut_sub(row.sub, name_w, cols) + "\x1b[0m"@);
    law_subtitle_keeps_to_its_room(row.sub, name_w, cols);
}

/// As many characters of a subtitle are shown as the popup has columns beside the
/// names and fourteen more, or all of them where there are no more than that.
pub proof fn law_subtitle_takes_all_its_room(sub: Seq<char>, name_w: nat, cols: nat)
    ensures
        name_w + 14 + sub.len() > cols && name_w + 14 <= cols ==> cut_sub(sub, name_w, cols).len()
            == cols - name_w - 14,
        name_w + 14 > cols ==> cut_sub(sub, name_w, cols).len() == 0 || name_w + 14 + sub.len()
            <= cols,
{
}

/// A number is written with its decimal digits: the last is its remainder by ten,
/// those before it write the rest.
pub proof fn law_numbers_are_written_in_decimal(n: nat, d: nat)
    requires
        d < 10,
    ensures
        n > 0 ==> decimal(n * 10 + d) == decimal(n).push((0x30 + d) as char),
        decimal(d) == seq![(0x30 + d) as char],
{
    assert((n * 10 + d) / 10 == n && (n * 10 + d) % 10 == d);
}

/// A text is filled up with blanks behind it to the width asked for, and never cut.
pub proof fn law_filling_up_keeps_the_text(s: Seq<char>, width: nat, i: int)
    ensures
        s.is_prefix_of(padded(s, width)),
        padded(s, width).len() == (if s.len() < width {
            width
        } else {
            s.len()
        }),
        s.len() <= i < padded(s, width).len() ==> padded(s, width)[i] == ' ',
{
    assert(s =~= padded(s, width).subrange(0, s.len() as int));
}

/// The name column is as wide as the longest name, in bytes, and no wider.
pub proof fn law_name_column_is_the_longest_name(rows: Seq<RowText>, i: int)
    ensures
        0 <= i < rows.len() ==> byte_len(rows[i].main) <= name_width(rows),
        rows.len() == 0 ==> name_width(rows) == 0,
        rows.len() > 0 ==> exists|k: int|
            0 <= k < rows.len() && byte_len((#[trigger] rows[k]).main) == name_width(rows),
    decreases rows.len(),
{
    if rows.len() > 0 {
        let rest = rows.drop_last();
        law_name_column_is_the_longest_name(rest, i);
        if 0 <= i < rest.len() {
            assert(rest[i] == rows[i]);
        }
        if byte_len(rows.last().main) == name_width(rows) {
            assert(byte_len(rows[rows.len() - 1].main) == name_width(rows));
        } else {
            assert(rest.len() > 0);
            let k = choose|k: int|
                0 <= k < rest.len() && byte_len((#[trigger] rest[k]).main) == name_width(rest);
            assert(rows[k] == rest[k]);
        }
    }
}

/// The rules are lines of one character, eight columns short of the terminal and
/// sixty long at most.
pub proof fn law_rules_keep_to_the_width(cols: nat, i: int)
    ensures
        cols <= 8 ==> rule(cols).len() == 0,
        8 <= cols <= 68 ==> rule(cols).len() == cols - 8,
        cols >= 68 ==> rule(cols).len() == 60,
        0 <= i < rule(cols).len() ==> rule(cols)[i] == '─',
{
}

/// The frame starts on a cleared screen with the title, and ends with the help and,
/// where there is one, the note, whole.
pub proof fn law_frame_has_title_help_and_note(
    rows: Seq<RowText>,
    sel: nat,
    note: Option<Seq<char>>,
    cols: nat,
)
    ensures
        ("\x1b[2J\x1b[H"@ + "\r\n"@ + "\r\n"@ + "    \x1b[1mNew workspace on...\x1b[0m"@
            + "\r\n"@).is_prefix_of(frame(rows, sel, note, cols)),
        note is None ==> (
        "    \x1b[2mclick or enter pick - up/down move - esc cancel\x1b[0m"@
            + "\r\n"@).is_suffix_of(frame(rows, sel, note, cols)),
        note matches Some(n) ==> (
        "    \x1b[2mclick or enter pick - up/down move - esc cancel\x1b[0m"@ + "\r\n"@
            + "    \x1b[2m(hosts.toml: "@ + n + ")\x1b[0m"@ + "\r\n"@).is_suffix_of(
            frame(rows, sel, note, cols),
        ),
{
    let whole = frame(rows, sel, note, cols);
    let top = "\x1b[2J\x1b[H"@ + "\r\n"@ + "\r\n"@ + "    \x1b[1mNew workspace on...\x1b[0m"@
        + "\r\n"@;
    assert(top =~= whole.subrange(0, top.len() as int));
    let help = "    \x1b[2mclick or enter pick - up/down move - esc cancel\x1b[0m"@ + "\r\n"@;
    match note {
        Some(n) => {
            let end = help + "    \x1b[2m(hosts.toml: "@ + n + ")\x1b[0m"@ + "\r\n"@;
            assert(end =~= whole.subrange(whole.len() - end.len(), whole.len() as int));
        },
        None => {
            assert(help =~= whole.subrange(whole.len() - help.len(), whole.len() as int));
        },
    }
}

/// The frame takes a line for each option, five above them and three below, and one
/// more for a note.
pub proof fn law_frame_has_its_lines(
    rows: Seq<RowText>,
    sel: nat,
    note: Option<Seq<char>>,
    cols: nat,
)
    requires
        forall|j: int| 0 <= j < rows.len() ==> one_line((#[trigger] rows[j]).main),
        forall|j: int| 0 <= j < rows.len() ==> one_line((#[trigger] rows[j]).sub),
        note matches Some(n) ==> one_line(n),
    ensures
        line_feeds(frame(rows, sel, note, cols)) == rows.len() + 8 + (if note is Some {
            1nat
        } else {
            0
        }),
{
    lemma_header_lines(cols);
    lemma_options_lines(rows, rows.len(), sel, cols);
    lemma_line_feeds_add(header(cols), options(rows, rows.len(), sel, cols));
    lemma_line_feeds_add(
        header(cols) + options(rows, rows.len(), sel, cols),
        footer(cols, note),
    );
    lemma_footer_lines(cols, note);
}

proof fn lemma_footer_lines(cols: nat, note: Option<Seq<char>>)
    requires
        note matches Some(n) ==> one_line(n),
    ensures
        line_feeds(footer(cols, note)) == 3 + (if note is Some {
            1nat
        } else {
            0
        }),
{
    lemma_fixed_texts_are_one_line();
    lemma_eol();
    reveal_strlit("    \x1b[2mclick or enter pick - up/down move - esc cancel\x1b[0m");
    reveal_strlit("    \x1b[2m(hosts.toml: ");
    reveal_strlit(")\x1b[0m");
    let p1 = EOL@ + DIM@;
    let p2 = p1 + rule(cols);
    let p3 = p2 + PLAIN@;
    let p4 = p3 + EOL@;
    let p5 = p4 + HELP@;
    let p6 = p5 + EOL@;
    lemma_one_line(DIM@);
    lemma_one_line(rule(cols));
    lemma_one_line(PLAIN@);
    lemma_one_line(HELP@);
    lemma_line_feeds_add(EOL@, DIM@);
    lemma_line_feeds_add(p1, rule(cols));
    lemma_line_feeds_add(p2, PLAIN@);
    lemma_line_feeds_add(p3, EOL@);
    lemma_line_feeds_add(p4, HELP@);
    lemma_line_feeds_add(p5, EOL@);
    if let Some(n) = note {
        lemma_one_line(NOTE@);
        lemma_one_line(n);
        lemma_one_line(NOTE_END@);
        lemma_line_feeds_add(p6, NOTE@);
        lemma_line_feeds_add(p6 + NOTE@, n);
        lemma_line_feeds_add(p6 + NOTE@ + n, NOTE_END@);
        lemma_line_feeds_add(p6 + NOTE@ + n + NOTE_END@, EOL@);
    }
}

/// The row of a host carries its name; its subtitle is the target where that says
/// more than the name, and is marked exactly where the host is the default one and
/// there are others.
pub proof fn law_host_row_says_what_the_name_does_not(
    host: HostText,
    many: bool,
    default_host: Option<Seq<char>>,
)
    ensures
        ({
            let row = host_row(host, many, default_host);
            let marked = many && default_host == Some(host.name);
            let target = host.target != host.name && host.target.len() > 0;
            &&& row.main == host.name
            &&& !marked && host.target != host.name ==> row.sub == host.target
            &&& !marked && host.target == host.name ==> row.sub.len() == 0
            &&& marked && target ==> row.sub == host.target + " "@ + "(default)"@
            &&& marked && !target ==> row.sub == "(default)"@
        }),
{
}

/// The rows are this machine with its directory, shown short, and each host with
/// what it says; the default one is marked from two hosts on.
pub proof fn law_rows_are_this_machine_and_the_hosts(
    hosts: Seq<HostText>,
    default_host: Option<Seq<char>>,
    cwd: Option<Seq<char>>,
    home: Option<Seq<char>>,
    i: int,
)
    requires
        0 <= i < hosts.len(),
    ensures
        ({
            let rows = all_rows(hosts, default_host, cwd, home);
            &&& rows.len() == hosts.len() + 1
            &&& rows[0].main == "this machine"@
            &&& cwd matches Some(c) ==> rows[0].sub == tilde_text(c, home)
            &&& cwd is None ==> rows[0].sub.len() == 0
            &&& rows[i + 1] == host_row(hosts[i], hosts.len() >= 2, default_host)
        }),
{
}

/// The texts of rows are their names and subtitles, in order.
pub proof fn law_row_texts_are_the_rows(rows: Seq<Row>, i: int)
    requires
        0 <= i < rows.len(),
    ensures
        row_texts(rows).len() == rows.len(),
        row_texts(rows)[i].main == rows[i].main@,
        row_texts(rows)[i].sub == rows[i].sub@,
{
}

/// A pick of a row means what the row was made from: the first this machine, each
/// other the host one row up.
pub proof fn law_pick_means_the_row(choice: Option<usize>, i: usize)
    ensures
        pick_of(choice) == Pick::Host(i) <==> choice is Some && choice->0 == i + 1,
        pick_of(choice) is Here <==> choice == Some(0usize),
        pick_of(choice) is Nothing <==> choice is None,
{
}

/// A terminal has the columns it reports, and eighty where it reports none.
pub proof fn law_terminal_has_the_columns_it_reports(c: u16)
    ensures
        c > 0 ==> cols_of(Some(c)) == c,
        cols_of(Some(0u16)) == 80,
        cols_of(None) == 80,
{
}

/// What is asked of the terminal is given back: the mouse reports and the cursor.
pub proof fn law_terminal_is_given_back()
    ensures
        GRAB@ == "\x1b[?25l"@ + "\x1b[?1000h"@ + "\x1b[?1006h"@,
        RELEASE@ == "\x1b[?1000l"@ + "\x1b[?25h"@,
        CLEARED@ == "\x1b[2J\x1b[H"@ + "\x1b[?25h"@ + "\r\n  "@,
{
    reveal_strlit("\x1b[?25l\x1b[?1000h\x1b[?1006h");
    reveal_strlit("\x1b[2J\x1b[H\x1b[?25h\r\n  ");
    reveal_strlit("\x1b[?1000l\x1b[?25h");
    reveal_strlit("\x1b[?25l");
    reveal_strlit("\x1b[?1000h");
    reveal_strlit("\x1b[?1006h");
    reveal_strlit("\x1b[?1000l");
    reveal_strlit("\x1b[?25h");
    reveal_strlit("\x1b[2J\x1b[H");
    reveal_strlit("\r\n  ");
    assert(GRAB@ =~= "\x1b[?25l"@ + "\x1b[?1000h"@ + "\x1b[?1006h"@);
    assert(RELEASE@ =~= "\x1b[?1000l"@ + "\x1b[?25h"@);
    assert(CLEARED@ =~= "\x1b[2J\x1b[H"@ + "\x1b[?25h"@ + "\r\n  "@);
}

} // verus!
