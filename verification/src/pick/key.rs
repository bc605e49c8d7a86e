//! Keys out of raw terminal input.
//!
//! A terminal answers queries (cursor position, device attributes, colours) on
//! the same stream that carries the user's keys. Control sequences, control
//! strings and escape sequences with intermediate bytes are therefore taken
//! whole: nothing of a report may be left behind to be read as keys.

use crate::bytes::{
    law_split_goes_side_by_side, law_whole_piece_is_not_split, pieces, split, split_at_each,
};
use vstd::prelude::*;

verus! {

pub const ESC: u8 = 0x1b;

pub const BEL: u8 = 0x07;

/// What one keypress, click or wheel turn means to the menu.
#[derive(Debug, Clone, Copy, PartialEq, Eq, Structural)]
pub enum Key {
    Up,
    Down,
    Enter,
    Cancel,
    Digit(u8),
    Click { y: u32 },
    Other,
}

/// A byte that ends a control sequence.
pub open spec fn is_final(b: u8) -> bool {
    0x40 <= b <= 0x7e
}

/// An intermediate byte of an escape sequence, which does not end it.
pub open spec fn is_intermediate(b: u8) -> bool {
    0x20 <= b <= 0x2f
}

/// A byte that opens a control string, after an escape byte: those of an
/// operating system command, a device control string, a start of string, a
/// privacy message and an application program command.
pub open spec fn opens_string(b: u8) -> bool {
    b == ']' as u8 || b == 'P' as u8 || b == 'X' as u8 || b == '^' as u8 || b == '_' as u8
}

/// A byte that ends a control string of which `body` has come in: a bell, or a
/// backslash right after an escape byte.
pub open spec fn ends_string(body: Seq<u8>, b: u8) -> bool {
    b == BEL || (b == '\\' as u8 && body.len() > 0 && body.last() == ESC)
}

/// The body of a control string that has not ended.
pub open spec fn open_body(body: Seq<u8>) -> bool {
    forall|i: int| 0 <= i < body.len() ==> !ends_string(body.take(i), #[trigger] body[i])
}

pub open spec fn is_digit(b: u8) -> bool {
    '0' as u8 <= b <= '9' as u8
}

/// The number that a run of decimal digits writes.
pub open spec fn value(digits: Seq<u8>) -> nat
    decreases digits.len(),
{
    if digits.len() == 0 {
        0
    } else {
        value(digits.drop_last()) * 10 + (digits.last() - '0' as u8) as nat
    }
}

/// The digits of a field, after the one plus sign that may stand before them.
pub open spec fn digits_of(field: Seq<u8>) -> Seq<u8> {
    if field.len() > 0 && field[0] == '+' as u8 {
        field.skip(1)
    } else {
        field
    }
}

/// The number that a field writes, if it writes one of 32 bits.
pub open spec fn number(field: Seq<u8>) -> Option<u32> {
    let digits = digits_of(field);
    if digits.len() > 0 && (forall|i: int| 0 <= i < digits.len() ==> is_digit(#[trigger] digits[i]))
        && value(digits) <= u32::MAX {
        Some(value(digits) as u32)
    } else {
        None
    }
}

/// The numbers among some fields, in order; what is no number is passed over.
pub open spec fn numbers(fs: Seq<Seq<u8>>) -> Seq<u32>
    decreases fs.len(),
{
    if fs.len() == 0 {
        Seq::empty()
    } else {
        match number(fs.last()) {
            Some(n) => numbers(fs.drop_last()).push(n),
            None => numbers(fs.drop_last()),
        }
    }
}

/// The key that a mouse report stands for: the wheel moves the selection, a
/// press of the left button clicks on a row, a release is nothing.
pub open spec fn mouse_key(report: Seq<u32>, pressed: bool) -> Key {
    if !pressed || report.len() == 0 {
        Key::Other
    } else if report[0] == 64 {
        Key::Up
    } else if report[0] == 65 {
        Key::Down
    } else if report[0] == 0 && report.len() > 2 {
        Key::Click { y: report[2] }
    } else {
        Key::Other
    }
}

/// The key that a control sequence stands for, by its parameters and its
/// final byte.
pub open spec fn csi_key(params: Seq<u8>, fin: u8) -> Key {
    if fin == 'A' as u8 {
        Key::Up
    } else if fin == 'B' as u8 {
        Key::Down
    } else if (fin == 'M' as u8 || fin == 'm' as u8) && params.len() > 0 && params[0]
        == '<' as u8 {
        mouse_key(numbers(split(params.skip(1), ';' as u8)), fin == 'M' as u8)
    } else {
        Key::Other
    }
}

/// The key that a byte outside any sequence stands for; an escape byte is
/// not yet one.
pub open spec fn plain_key(b: u8) -> Option<Key> {
    if b == ESC {
        None
    } else if b == '\r' as u8 || b == '\n' as u8 {
        Some(Key::Enter)
    } else if b == 'q' as u8 || b == 0x03 {
        Some(Key::Cancel)
    } else if b == 'k' as u8 {
        Some(Key::Up)
    } else if b == 'j' as u8 {
        Some(Key::Down)
    } else if '1' as u8 <= b <= '9' as u8 {
        Some(Key::Digit((b - '0' as u8) as u8))
    } else {
        Some(Key::Other)
    }
}

/// The bytes of a key that is not complete.
pub open spec fn pending(seen: Seq<u8>) -> bool {
    ||| seen.len() == 0
    ||| {
        &&& seen[0] == ESC
        &&& {
            ||| seen.len() == 1
            ||| seen.len() == 2 && seen[1] == 'O' as u8
            ||| seen[1] == '[' as u8 && forall|i: int|
                2 <= i < seen.len() ==> !is_final(#[trigger] seen[i])
            ||| opens_string(seen[1]) && open_body(seen.skip(2))
            ||| forall|i: int| 1 <= i < seen.len() ==> is_intermediate(#[trigger] seen[i])
        }
    }
}

/// What the next byte (`None`: the line fell quiet) makes of the bytes seen
/// so far: a key, or nothing yet.
pub open spec fn key_after(seen: Seq<u8>, next: Option<u8>) -> Option<Key> {
    if seen.len() == 0 {
        match next {
            Some(b) => plain_key(b),
            None => None,
        }
    } else if seen.len() == 1 {
        match next {
            Some(b) => if b == '[' as u8 || b == 'O' as u8 || opens_string(b) || is_intermediate(
                b,
            ) {
                None
            } else {
                Some(Key::Other)
            },
            None => Some(Key::Cancel),
        }
    } else if seen[1] == '[' as u8 {
        match next {
            Some(b) => if is_final(b) {
                Some(csi_key(seen.skip(2), b))
            } else {
                None
            },
            None => Some(Key::Other),
        }
    } else if opens_string(seen[1]) {
        match next {
            Some(b) => if ends_string(seen.skip(2), b) {
                Some(Key::Other)
            } else {
                None
            },
            None => Some(Key::Other),
        }
    } else if is_intermediate(seen[1]) {
        match next {
            Some(b) => if is_intermediate(b) {
                None
            } else {
                Some(Key::Other)
            },
            None => Some(Key::Other),
        }
    } else {
        match next {
            Some(b) => if b == 'A' as u8 {
                Some(Key::Up)
            } else if b == 'B' as u8 {
                Some(Key::Down)
            } else {
                Some(Key::Other)
            },
            None => Some(Key::Other),
        }
    }
}

/// The bytes that are kept for the key to come.
pub open spec fn seen_after(seen: Seq<u8>, next: Option<u8>) -> Seq<u8> {
    match (key_after(seen, next), next) {
        (None, Some(b)) => seen.push(b),
        (None, None) => seen,
        (Some(_), _) => Seq::empty(),
    }
}

/// The keys that an uninterrupted run of bytes gives, after the bytes seen.
pub open spec fn keys(seen: Seq<u8>, input: Seq<u8>) -> Seq<Key>
    decreases input.len(),
{
    if input.len() == 0 {
        Seq::empty()
    } else {
        let rest = keys(seen_after(seen, Some(input[0])), input.drop_first());
        match key_after(seen, Some(input[0])) {
            Some(k) => seq![k] + rest,
            None => rest,
        }
    }
}

proof fn lemma_value_grows(digits: Seq<u8>, upto: int)
    requires
        0 <= upto <= digits.len(),
    ensures
        value(digits.take(upto)) <= value(digits),
    decreases digits.len(),
{
    if upto == digits.len() {
        assert(digits.take(upto) =~= digits);
    } else {
        lemma_value_grows(digits.drop_last(), upto);
        assert(digits.drop_last().take(upto) =~= digits.take(upto));
    }
}

/// The number that a field writes, if it writes one of 32 bits.
fn read_number(field: &[u8]) -> (r: Option<u32>)
    ensures
        r == number(field@),
{
    let mut i: usize = 0;
    if field.len() > 0 && field[0] == '+' as u8 {
        i = 1;
    }
    let from: usize = i;
    let ghost digits = digits_of(field@);
    assert(digits =~= field@.skip(from as int));
    if i == field.len() {
        return None;
    }
    let mut n: u32 = 0;
    assert(digits.take(0) =~= Seq::empty());
    while i < field.len()
        invariant
            from <= i <= field@.len(),
            from < field@.len(),
            digits == digits_of(field@),
            digits == field@.skip(from as int),
            forall|j: int| 0 <= j < i - from ==> is_digit(#[trigger] digits[j]),
            n == value(digits.take(i - from)),
        decreases field@.len() - i,
    {
        let b: u8 = field[i];
        assert(digits[i - from] == b);
        if b < ('0' as u8) || b > '9' as u8 {
            return None;
        }
        let d: u32 = (b - '0' as u8) as u32;
        proof {
            assert(digits.take(i + 1 - from).drop_last() =~= digits.take(i - from));
            lemma_value_grows(digits, i + 1 - from);
        }
        if n > (u32::MAX - d) / 10 {
            return None;
        }
        n = n * 10 + d;
        i += 1;
    }
    assert(digits.take(i - from) =~= digits);
    Some(n)
}

/// The numbers between semicolons; what is no number is passed over.
fn read_numbers(s: &[u8]) -> (r: Vec<u32>)
    ensures
        r@ == numbers(split(s@, ';' as u8)),
{
    let between = split_at_each(s, ';' as u8);
    let ghost all = pieces(between@);
    let mut out: Vec<u32> = Vec::new();
    let mut i: usize = 0;
    assert(out@ =~= numbers(all.take(0)));
    while i < between.len()
        invariant
            i <= between@.len(),
            all == pieces(between@),
            out@ == numbers(all.take(i as int)),
        decreases between@.len() - i,
    {
        proof {
            assert(all.take(i + 1).drop_last() =~= all.take(i as int));
            assert(all.take(i + 1).last() == between@[i as int]@);
        }
        if let Some(n) = read_number(between[i].as_slice()) {
            out.push(n);
        }
        i += 1;
    }
    assert(all.take(i as int) =~= all);
    out
}

/// The key that a mouse report stands for.
fn read_mouse(report: &[u32], pressed: bool) -> (r: Key)
    ensures
        r == mouse_key(report@, pressed),
{
    if !pressed || report.len() == 0 {
        Key::Other
    } else if report[0] == 64 {
        Key::Up
    } else if report[0] == 65 {
        Key::Down
    } else if report[0] == 0 && report.len() > 2 {
        Key::Click { y: report[2] }
    } else {
        Key::Other
    }
}

/// A byte that opens a control string, after an escape byte.
fn starts_string(b: u8) -> (r: bool)
    ensures
        r == opens_string(b),
{
    b == ']' as u8 || b == 'P' as u8 || b == 'X' as u8 || b == '^' as u8 || b == '_' as u8
}

/// How many milliseconds the next byte is waited for, after the bytes seen.
pub open spec fn patience_after(seen: Seq<u8>) -> Option<i32> {
    if seen.len() == 0 {
        None
    } else if seen.len() == 1 {
        Some(300i32)
    } else {
        Some(60i32)
    }
}

/// One keypress at a time out of single bytes.
pub struct KeyReader {
    seen: Vec<u8>,
}

impl View for KeyReader {
    type V = Seq<u8>;

    closed spec fn view(&self) -> Seq<u8> {
        self.seen@
    }
}

impl KeyReader {
    pub open spec fn wf(self) -> bool {
        pending(self@)
    }

    /// A reader at the start of a key.
    pub fn new() -> (r: KeyReader)
        ensures
            r.wf(),
            r@ == Seq::<u8>::empty(),
    {
        KeyReader { seen: Vec::new() }
    }

    /// How many milliseconds to wait for the next byte before the line counts
    /// as quiet. The first byte of a key is waited for without end; a lone
    /// escape byte is told from a sequence by what follows it in time.
    pub fn patience(&self) -> (r: Option<i32>)
        requires
            self.wf(),
        ensures
            r == (if self@.len() == 0 {
                None::<i32>
            } else if self@.len() == 1 {
                Some(300i32)
            } else {
                Some(60i32)
            }),
            r == patience_after(self@),
    {
        if self.seen.len() == 0 {
            None
        } else if self.seen.len() == 1 {
            Some(300)
        } else {
            Some(60)
        }
    }

    /// Takes the next byte, or the news that the line fell quiet, and gives
    /// the key that is complete with it.
    pub fn read_key(&mut self, next: Option<u8>) -> (r: Option<Key>)
        requires
            old(self).wf(),
        ensures
            final(self).wf(),
            r == key_after(old(self)@, next),
            final(self)@ == seen_after(old(self)@, next),
    {
        let key = self.decide(next);
        proof {
            law_reading_goes_on(self@, next);
        }
        match (key, next) {
            (Some(_), _) => {
                self.seen = Vec::new();
            },
            (None, Some(b)) => {
                self.seen.push(b);
            },
            (None, None) => {},
        }
        key
    }

    fn decide(&self, next: Option<u8>) -> (r: Option<Key>)
        requires
            self.wf(),
        ensures
            r == key_after(self@, next),
    {
        let n: usize = self.seen.len();
        if n == 0 {
            match next {
                None => None,
                Some(b) => if b == ESC {
                    None
                } else if b == '\r' as u8 || b == '\n' as u8 {
                    Some(Key::Enter)
                } else if b == 'q' as u8 || b == 0x03 {
                    Some(Key::Cancel)
                } else if b == 'k' as u8 {
                    Some(Key::Up)
                } else if b == 'j' as u8 {
                    Some(Key::Down)
                } else if '1' as u8 <= b && b <= '9' as u8 {
                    Some(Key::Digit(b - '0' as u8))
                } else {
                    Some(Key::Other)
                },
            }
        } else if n == 1 {
            match next {
                None => Some(Key::Cancel),
                Some(b) => if b == '[' as u8 || b == 'O' as u8 || starts_string(b) || (0x20 <= b
                    && b <= 0x2f) {
                    None
                } else {
                    Some(Key::Other)
                },
            }
        } else if self.seen[1] == '[' as u8 {
            match next {
                None => Some(Key::Other),
                Some(b) => if b < 0x40 || b > 0x7e {
                    None
                } else if b == 'A' as u8 {
                    Some(Key::Up)
                } else if b == 'B' as u8 {
                    Some(Key::Down)
                } else if (b == 'M' as u8 || b == 'm' as u8) && n > 2 && self.seen[2] == '<' as u8 {
                    let (_, report) = self.seen.as_slice().split_at(3);
                    assert(report@ =~= self@.skip(2).skip(1));
                    Some(read_mouse(read_numbers(report).as_slice(), b == 'M' as u8))
                } else {
                    Some(Key::Other)
                },
            }
        } else if starts_string(self.seen[1]) {
            match next {
                None => Some(Key::Other),
                Some(b) => if b == BEL || (b == '\\' as u8 && n > 2 && self.seen[n - 1] == ESC) {
                    Some(Key::Other)
                } else {
                    None
                },
            }
        } else if 0x20 <= self.seen[1] && self.seen[1] <= 0x2f {
            match next {
                None => Some(Key::Other),
                Some(b) => if 0x20 <= b && b <= 0x2f {
                    None
                } else {
                    Some(Key::Other)
                },
            }
        } else {
            match next {
                None => Some(Key::Other),
                Some(b) => if b == 'A' as u8 {
                    Some(Key::Up)
                } else if b == 'B' as u8 {
                    Some(Key::Down)
                } else {
                    Some(Key::Other)
                },
            }
        }
    }
}

/// What reading one byte came to.
#[derive(Debug, Clone, Copy, PartialEq, Eq, Structural)]
pub enum ByteRead {
    Got,
    Closed,
    Retry,
    Failed,
}

/// What a read of one byte came to.
pub open spec fn read_outcome(count: isize, interrupted: bool) -> ByteRead {
    if count == 1 {
        ByteRead::Got
    } else if count == 0 {
        ByteRead::Closed
    } else if interrupted {
        ByteRead::Retry
    } else {
        ByteRead::Failed
    }
}

/// What a read of one byte came to, by the count it returned and whether a
/// signal cut it short.
pub fn byte_read(count: isize, interrupted: bool) -> (r: ByteRead)
    ensures
        r == (if count == 1 {
            ByteRead::Got
        } else if count == 0 {
            ByteRead::Closed
        } else if interrupted {
            ByteRead::Retry
        } else {
            ByteRead::Failed
        }),
        r == read_outcome(count, interrupted),
{
    if count == 1 {
        ByteRead::Got
    } else if count == 0 {
        ByteRead::Closed
    } else if interrupted {
        ByteRead::Retry
    } else {
        ByteRead::Failed
    }
}

proof fn lemma_params_give_no_key(seen: Seq<u8>, params: Seq<u8>, rest: Seq<u8>)
    requires
        pending(seen),
        seen.len() >= 2,
        seen[1] == '[' as u8,
        forall|i: int| 0 <= i < params.len() ==> !is_final(#[trigger] params[i]),
    ensures
        keys(seen, params + rest) == keys(seen + params, rest),
    decreases params.len(),
{
    if params.len() == 0 {
        assert(params + rest =~= rest);
        assert(seen + params =~= seen);
    } else {
        let input = params + rest;
        assert(input[0] == params[0]);
        assert(input.drop_first() =~= params.drop_first() + rest);
        lemma_params_give_no_key(seen.push(params[0]), params.drop_first(), rest);
        assert(seen.push(params[0]) + params.drop_first() =~= seen + params);
    }
}

/// A control sequence with these parameters and this final byte.
pub open spec fn control_sequence(params: Seq<u8>, fin: u8) -> Seq<u8> {
    seq![ESC, '[' as u8] + params + seq![fin]
}

/// A control sequence is taken whole: it gives the one key that its
/// parameters and final byte stand for, and reading goes on right behind it.
pub proof fn law_control_sequence_is_taken_whole(params: Seq<u8>, fin: u8, rest: Seq<u8>)
    requires
        forall|i: int| 0 <= i < params.len() ==> !is_final(#[trigger] params[i]),
        is_final(fin),
    ensures
        keys(Seq::empty(), control_sequence(params, fin) + rest) == seq![
            csi_key(params, fin),
        ] + keys(Seq::empty(), rest),
{
    let head = seq![ESC, '[' as u8];
    let input = head + params + seq![fin] + rest;
    let tail = params + (seq![fin] + rest);
    let none = Seq::<u8>::empty();
    assert(input[0] == ESC);
    assert(none.push(ESC) =~= seq![ESC]);
    assert(input.drop_first()[0] == '[' as u8);
    assert(seq![ESC].push('[' as u8) =~= head);
    assert(input.drop_first().drop_first() =~= tail);
    assert(keys(none, input) == keys(seq![ESC], input.drop_first()));
    assert(keys(seq![ESC], input.drop_first()) == keys(head, tail));
    lemma_params_give_no_key(head, params, seq![fin] + rest);
    let last = seq![fin] + rest;
    assert(last[0] == fin);
    assert(last.drop_first() =~= rest);
    assert((head + params).skip(2) =~= params);
    assert((head + params)[1] == '[' as u8);
}

proof fn lemma_body_gives_no_key(seen: Seq<u8>, body: Seq<u8>, rest: Seq<u8>)
    requires
        seen.len() >= 2,
        opens_string(seen[1]),
        open_body(seen.skip(2) + body),
    ensures
        keys(seen, body + rest) == keys(seen + body, rest),
    decreases body.len(),
{
    if body.len() == 0 {
        assert(body + rest =~= rest);
        assert(seen + body =~= seen);
    } else {
        let input = body + rest;
        let whole = seen.skip(2) + body;
        let at = seen.len() - 2;
        assert(input[0] == body[0]);
        assert(input.drop_first() =~= body.drop_first() + rest);
        assert(whole.take(at) =~= seen.skip(2));
        assert(!ends_string(whole.take(at), whole[at]));
        assert(seen.push(body[0]).skip(2) + body.drop_first() =~= whole);
        lemma_body_gives_no_key(seen.push(body[0]), body.drop_first(), rest);
        assert(seen.push(body[0]) + body.drop_first() =~= seen + body);
    }
}

/// What ends a control string.
pub open spec fn is_string_end(end: Seq<u8>) -> bool {
    end == seq![BEL] || end == seq![ESC, '\\' as u8]
}

/// A control string with this opening byte, this body and this end.
pub open spec fn control_string(open: u8, body: Seq<u8>, end: Seq<u8>) -> Seq<u8> {
    seq![ESC, open] + body + end
}

/// A control string is taken whole: whatever it holds, it gives one key without
/// meaning, and reading goes on right behind it.
pub proof fn law_control_string_is_taken_whole(open: u8, body: Seq<u8>, end: Seq<u8>, rest: Seq<u8>)
    requires
        opens_string(open),
        open_body(body),
        is_string_end(end),
    ensures
        keys(Seq::empty(), control_string(open, body, end) + rest) == seq![Key::Other] + keys(
            Seq::empty(),
            rest,
        ),
{
    let head = seq![ESC, open];
    let input = control_string(open, body, end) + rest;
    let tail = body + (end + rest);
    let none = Seq::<u8>::empty();
    assert(input[0] == ESC);
    assert(none.push(ESC) =~= seq![ESC]);
    assert(input.drop_first()[0] == open);
    assert(seq![ESC].push(open) =~= head);
    assert(input.drop_first().drop_first() =~= tail);
    assert(keys(none, input) == keys(seq![ESC], input.drop_first()));
    assert(keys(seq![ESC], input.drop_first()) == keys(head, tail));
    assert(head.skip(2) + body =~= body);
    lemma_body_gives_no_key(head, body, end + rest);
    let seen = head + body;
    let last = end + rest;
    assert(seen.skip(2) =~= body);
    assert(seen[1] == open);
    if end == seq![BEL] {
        assert(last[0] == BEL);
        assert(last.drop_first() =~= rest);
    } else {
        assert(last[0] == ESC);
        let more = last.drop_first();
        assert(more[0] == '\\' as u8);
        assert(more.drop_first() =~= rest);
        assert(!ends_string(body, ESC));
        assert(keys(seen, last) == keys(seen.push(ESC), more));
        assert(seen.push(ESC).skip(2) =~= body.push(ESC));
        assert(seen.push(ESC)[1] == open);
        assert(ends_string(body.push(ESC), '\\' as u8));
    }
}

proof fn lemma_intermediates_give_no_key(seen: Seq<u8>, more: Seq<u8>, rest: Seq<u8>)
    requires
        seen.len() >= 1,
        seen.len() >= 2 ==> is_intermediate(seen[1]),
        forall|i: int| 0 <= i < more.len() ==> is_intermediate(#[trigger] more[i]),
    ensures
        keys(seen, more + rest) == keys(seen + more, rest),
    decreases more.len(),
{
    if more.len() == 0 {
        assert(more + rest =~= rest);
        assert(seen + more =~= seen);
    } else {
        let input = more + rest;
        assert(is_intermediate(more[0]));
        assert(input[0] == more[0]);
        assert(input.drop_first() =~= more.drop_first() + rest);
        lemma_intermediates_give_no_key(seen.push(more[0]), more.drop_first(), rest);
        assert(seen.push(more[0]) + more.drop_first() =~= seen + more);
    }
}

/// An escape sequence with these intermediate bytes and this final byte.
pub open spec fn escape_sequence(between: Seq<u8>, fin: u8) -> Seq<u8> {
    seq![ESC] + between + seq![fin]
}

/// An escape sequence with intermediate bytes is taken whole: it gives one key
/// without meaning, and reading goes on right behind it.
pub proof fn law_escape_sequence_is_taken_whole(between: Seq<u8>, fin: u8, rest: Seq<u8>)
    requires
        between.len() > 0,
        forall|i: int| 0 <= i < between.len() ==> is_intermediate(#[trigger] between[i]),
        0x30 <= fin <= 0x7e,
    ensures
        keys(Seq::empty(), escape_sequence(between, fin) + rest) == seq![Key::Other] + keys(
            Seq::empty(),
            rest,
        ),
{
    let input = escape_sequence(between, fin) + rest;
    let none = Seq::<u8>::empty();
    let last = seq![fin] + rest;
    assert(input[0] == ESC);
    assert(none.push(ESC) =~= seq![ESC]);
    assert(input.drop_first() =~= between + last);
    assert(keys(none, input) == keys(seq![ESC], between + last));
    lemma_intermediates_give_no_key(seq![ESC], between, last);
    let seen = seq![ESC] + between;
    assert(seen[1] == between[0]);
    assert(last[0] == fin);
    assert(last.drop_first() =~= rest);
}

/// A control sequence that is neither an arrow nor a mouse report, such as the
/// answer to a query for the cursor, never moves, picks or cancels: it is read as
/// one key without meaning.
pub proof fn law_report_is_no_choice(params: Seq<u8>, fin: u8)
    requires
        forall|i: int| 0 <= i < params.len() ==> !is_final(#[trigger] params[i]),
        is_final(fin),
        fin != 'A' as u8,
        fin != 'B' as u8,
        params.len() == 0 || params[0] != '<' as u8,
    ensures
        keys(Seq::empty(), control_sequence(params, fin)) == seq![Key::Other],
{
    law_control_sequence_is_taken_whole(params, fin, Seq::empty());
    assert(control_sequence(params, fin) + Seq::<u8>::empty() =~= control_sequence(params, fin));
    assert(seq![Key::Other] + Seq::<Key>::empty() =~= seq![Key::Other]);
}

/// Only a digit typed by itself is read as a digit.
pub proof fn law_digits_are_typed(seen: Seq<u8>, next: Option<u8>, d: u8)
    requires
        key_after(seen, next) == Some(Key::Digit(d)),
    ensures
        seen.len() == 0,
        next == Some((d + '0' as u8) as u8),
        1 <= d <= 9,
{
}

/// Each byte that comes in, and each quiet, leaves a reader that is ready for
/// the next: either at the start of a key or within an unfinished one.
pub proof fn law_reading_goes_on(seen: Seq<u8>, next: Option<u8>)
    requires
        pending(seen),
    ensures
        pending(seen_after(seen, next)),
{
    if let Some(b) = next {
        if seen.len() == 1 {
            assert(seen.push(b).skip(2) =~= Seq::empty());
        }
        if seen.len() >= 2 && opens_string(seen[1]) && !ends_string(seen.skip(2), b) {
            let body = seen.skip(2);
            let more = body.push(b);
            assert(seen.push(b).skip(2) =~= more);
            assert forall|i: int| 0 <= i < more.len() implies !ends_string(
                more.take(i),
                #[trigger] more[i],
            ) by {
                assert(more.take(i) =~= body.take(i));
                if i < body.len() {
                    assert(more[i] == body[i]);
                } else {
                    assert(body.take(i) =~= body);
                }
            }
        }
    }
}

/// A byte outside any sequence means what is written on its key: return and line
/// feed enter, `q` and control-c cancel, `k` and `j` move, a digit from one to nine
/// is itself. Only an escape byte is not yet a key, and no other byte means any of
/// these.
pub proof fn law_plain_bytes_are_their_keys(b: u8, d: u8)
    ensures
        ({
            let key = key_after(Seq::empty(), Some(b));
            &&& key is None <==> b == 0x1b
            &&& key == Some(Key::Enter) <==> b == 0x0d || b == 0x0a
            &&& key == Some(Key::Cancel) <==> b == 0x71 || b == 0x03
            &&& key == Some(Key::Up) <==> b == 0x6b
            &&& key == Some(Key::Down) <==> b == 0x6a
            &&& key == Some(Key::Digit(d)) <==> 1 <= d <= 9 && b == 0x30 + d
            &&& key matches Some(k) ==> k !is Click
        }),
        key_after(Seq::empty(), None) is None,
        seen_after(Seq::empty(), Some(0x1bu8)) == seq![0x1bu8],
        b != 0x1b ==> seen_after(Seq::empty(), Some(b)).len() == 0,
{
    assert(seen_after(Seq::empty(), Some(0x1bu8)) =~= seq![0x1bu8]);
}

/// When the line falls quiet after an escape byte alone, that cancels; within any
/// longer unfinished sequence it ends the sequence without meaning. Either way the
/// next byte starts a new key.
pub proof fn law_quiet_ends_what_is_unfinished(seen: Seq<u8>)
    requires
        pending(seen),
        seen.len() > 0,
    ensures
        seen.len() == 1 ==> key_after(seen, None) == Some(Key::Cancel),
        seen.len() > 1 ==> key_after(seen, None) == Some(Key::Other),
        seen_after(seen, None).len() == 0,
{
}

/// A single shift takes one byte more: `A` and `B` are the arrows up and down,
/// anything else has no meaning, and reading goes on behind it.
pub proof fn law_single_shift_is_taken_whole(b: u8, rest: Seq<u8>)
    ensures
        keys(Seq::empty(), seq![0x1bu8, 0x4f, b] + rest) == seq![
            if b == 0x41 {
                Key::Up
            } else if b == 0x42 {
                Key::Down
            } else {
                Key::Other
            },
        ] + keys(Seq::empty(), rest),
{
    let none = Seq::<u8>::empty();
    let input = seq![0x1bu8, 0x4f, b] + rest;
    let second = input.drop_first();
    let third = second.drop_first();
    assert(input[0] == 0x1b && second[0] == 0x4f && third[0] == b);
    assert(third.drop_first() =~= rest);
    assert(none.push(0x1b) =~= seq![0x1bu8]);
    assert(seq![0x1bu8].push(0x4f) =~= seq![0x1bu8, 0x4f]);
    assert(keys(none, input) == keys(seq![0x1bu8], second));
    assert(keys(seq![0x1bu8], second) == keys(seq![0x1bu8, 0x4f], third));
}

/// An escape byte and one that opens no sequence are one key without meaning, and
/// reading goes on behind them.
pub proof fn law_escaped_byte_has_no_meaning(b: u8, rest: Seq<u8>)
    requires
        b != 0x5b,
        b != 0x4f,
        b != 0x5d && b != 0x50 && b != 0x58 && b != 0x5e && b != 0x5f,
        !(0x20 <= b <= 0x2f),
    ensures
        keys(Seq::empty(), seq![0x1bu8, b] + rest) == seq![Key::Other] + keys(Seq::empty(), rest),
{
    let none = Seq::<u8>::empty();
    let input = seq![0x1bu8, b] + rest;
    let second = input.drop_first();
    assert(input[0] == 0x1b && second[0] == b);
    assert(second.drop_first() =~= rest);
    assert(none.push(0x1b) =~= seq![0x1bu8]);
    assert(keys(none, input) == keys(seq![0x1bu8], second));
}

/// The bytes of sequences fall into classes by their codes.
pub proof fn law_byte_classes(b: u8, body: Seq<u8>)
    ensures
        is_final(b) <==> 0x40 <= b <= 0x7e,
        is_intermediate(b) <==> 0x20 <= b <= 0x2f,
        is_digit(b) <==> 0x30 <= b <= 0x39,
        opens_string(b) <==> b == 0x5d || b == 0x50 || b == 0x58 || b == 0x5e || b == 0x5f,
        ends_string(body, b) <==> b == 0x07 || (b == 0x5c && body.len() > 0 && body.last() == 0x1b),
        ESC == 0x1b,
        BEL == 0x07,
{
}

/// A body without a bell, and without an escape byte right before a backslash, has
/// not ended.
pub proof fn law_body_goes_on_without_an_end(body: Seq<u8>)
    requires
        forall|i: int| 0 <= i < body.len() ==> #[trigger] body[i] != 0x07,
        forall|i: int| 0 < i < body.len() && body[i - 1] == 0x1b ==> #[trigger] body[i] != 0x5c,
    ensures
        open_body(body),
{
    assert forall|i: int| 0 <= i < body.len() implies !ends_string(
        body.take(i),
        #[trigger] body[i],
    ) by {
        if i > 0 {
            assert(body.take(i).last() == body[i - 1]);
        }
    }
}

/// A control sequence that ends with `A` or `B` is the arrow up or down, whatever
/// its parameters; one that ends with anything but these and `M` has no meaning, and
/// neither has one with `M` whose parameters do not start with `<`.
pub proof fn law_arrows_go_by_the_final_byte(params: Seq<u8>, fin: u8)
    ensures
        csi_key(params, 0x41) == Key::Up,
        csi_key(params, 0x42) == Key::Down,
        fin != 0x41 && fin != 0x42 && fin != 0x4d ==> csi_key(params, fin) == Key::Other,
        params.len() == 0 || params[0] != 0x3c ==> csi_key(params, 0x4d) == Key::Other,
{
}

/// A number in decimal digits.
pub open spec fn digits_for(n: nat) -> Seq<u8>
    decreases n,
{
    if n < 10 {
        seq![(0x30 + n) as u8]
    } else {
        digits_for(n / 10).push((0x30 + n % 10) as u8)
    }
}

/// What a number writes is read as that number; where it takes more than 32 bits, or
/// anything but digits stands behind a first plus sign, nothing is read.
pub proof fn law_numbers_are_read_as_written(n: nat, field: Seq<u8>, i: int)
    ensures
        digits_for(n).len() > 0,
        forall|k: int| 0 <= k < digits_for(n).len() ==> 0x30 <= #[trigger] digits_for(n)[k] <= 0x39,
        value(digits_for(n)) == n,
        n <= 0xffff_ffff ==> number(digits_for(n)) == Some(n as u32),
        n <= 0xffff_ffff ==> number(seq![0x2bu8] + digits_for(n)) == Some(n as u32),
        n > 0xffff_ffff ==> number(digits_for(n)) is None,
        0 <= i < field.len() && !(0x30 <= field[i] <= 0x39) && !(i == 0 && field[0] == 0x2b)
            ==> number(field) is None,
        number(Seq::empty()) is None,
        number(seq![0x2bu8]) is None,
    decreases n,
{
    if n >= 10 {
        law_numbers_are_read_as_written(n / 10, field, i);
        assert(digits_for(n).drop_last() =~= digits_for(n / 10));
    } else {
        assert(digits_for(n).drop_last() =~= Seq::empty());
        reveal_with_fuel(value, 2);
    }
    let digits = digits_for(n);
    assert(digits[0] != 0x2b);
    assert(digits_of(digits) == digits);
    let signed = seq![0x2bu8] + digits;
    assert(signed.skip(1) =~= digits);
    assert(digits_of(signed) =~= digits);
    if 0 <= i < field.len() && !(0x30 <= field[i] <= 0x39) && !(i == 0 && field[0] == 0x2b) {
        let kept = digits_of(field);
        if field[0] == 0x2b {
            assert(kept[i - 1] == field[i]);
        } else {
            assert(kept[i] == field[i]);
        }
    }
    assert(seq![0x2bu8].skip(1) =~= Seq::empty());
}

/// Fields that are no numbers are passed over, the others are kept in order.
pub proof fn law_only_numbers_are_kept(fs: Seq<Seq<u8>>, f: Seq<u8>)
    ensures
        numbers(Seq::empty()).len() == 0,
        numbers(fs.push(f)) == (match number(f) {
            Some(n) => numbers(fs).push(n),
            None => numbers(fs),
        }),
{
    assert(fs.push(f).drop_last() =~= fs);
}

/// The parameters of a mouse report: the button, the column and the row.
pub open spec fn mouse_params(button: nat, x: nat, y: nat) -> Seq<u8> {
    seq![0x3cu8] + (digits_for(button).push(0x3b) + (digits_for(x).push(0x3b) + digits_for(y)))
}

/// A mouse report means what happened: pressing the left button clicks on the row
/// that it names, the wheel moves up or down, and any other button, as well as any
/// release, has no meaning. The report is taken whole.
pub proof fn law_mouse_reports_mean_what_happened(
    button: nat,
    x: nat,
    y: nat,
    pressed: bool,
    rest: Seq<u8>,
)
    requires
        button <= 0xffff_ffff,
        x <= 0xffff_ffff,
        y <= 0xffff_ffff,
    ensures
        keys(
            Seq::empty(),
            control_sequence(
                mouse_params(button, x, y),
                if pressed {
                    0x4d
                } else {
                    0x6d
                },
            ) + rest,
        ) == seq![
            if pressed && button == 0 {
                Key::Click { y: y as u32 }
            } else if pressed && button == 64 {
                Key::Up
            } else if pressed && button == 65 {
                Key::Down
            } else {
                Key::Other
            },
        ] + keys(Seq::empty(), rest),
{
    let b = digits_for(button);
    let c = digits_for(x);
    let r = digits_for(y);
    let params = mouse_params(button, x, y);
    let fin: u8 = if pressed {
        0x4d
    } else {
        0x6d
    };
    law_numbers_are_read_as_written(button, Seq::empty(), 0);
    law_numbers_are_read_as_written(x, Seq::empty(), 0);
    law_numbers_are_read_as_written(y, Seq::empty(), 0);
    let inner = c.push(0x3b) + r;
    let fields = b.push(0x3b) + inner;
    assert(params.skip(1) =~= fields);
    law_split_goes_side_by_side(b, inner, 0x3b);
    law_split_goes_side_by_side(c, r, 0x3b);
    law_whole_piece_is_not_split(b, 0x3b);
    law_whole_piece_is_not_split(c, 0x3b);
    law_whole_piece_is_not_split(r, 0x3b);
    let none = Seq::<Seq<u8>>::empty();
    assert(split(fields, 0x3b) =~= none.push(b).push(c).push(r));
    law_only_numbers_are_kept(none, b);
    law_only_numbers_are_kept(none.push(b), c);
    law_only_numbers_are_kept(none.push(b).push(c), r);
    let report = numbers(split(params.skip(1), ';' as u8));
    assert(report =~= seq![button as u32, x as u32, y as u32]);
    assert forall|i: int| 0 <= i < params.len() implies !is_final(#[trigger] params[i]) by {
        if i > 0 {
            let j = i - 1;
            assert(params[i] == fields[j]);
            if j < b.len() {
                assert(fields[j] == b[j]);
            } else if j > b.len() {
                let k = j - b.len() - 1;
                assert(fields[j] == inner[k]);
                if k < c.len() {
                    assert(inner[k] == c[k]);
                } else if k > c.len() {
                    assert(inner[k] == r[k - c.len() - 1]);
                }
            }
        }
    }
    law_control_sequence_is_taken_whole(params, fin, rest);
}

/// Reading in two runs gives the keys of one run: nothing depends on how the bytes
/// come in.
pub proof fn law_keys_do_not_depend_on_the_runs(seen: Seq<u8>, a: Seq<u8>, b: Seq<u8>)
    ensures
        keys(seen, a + b) == keys(seen, a) + keys(seen_after_all(seen, a), b),
    decreases a.len(),
{
    if a.len() == 0 {
        assert(a + b =~= b);
        assert(keys(seen, a) + keys(seen, b) =~= keys(seen, b));
    } else {
        assert((a + b)[0] == a[0]);
        assert((a + b).drop_first() =~= a.drop_first() + b);
        law_keys_do_not_depend_on_the_runs(seen_after(seen, Some(a[0])), a.drop_first(), b);
        assert(keys(seen, a + b) =~= keys(seen, a) + keys(seen_after_all(seen, a), b));
    }
}

/// The bytes that are kept for the key to come after a run of bytes.
pub open spec fn seen_after_all(seen: Seq<u8>, input: Seq<u8>) -> Seq<u8>
    decreases input.len(),
{
    if input.len() == 0 {
        seen
    } else {
        seen_after_all(seen_after(seen, Some(input[0])), input.drop_first())
    }
}

/// The first byte of a key is waited for without end, the one after an escape byte
/// for three tenths of a second, each further one for sixty milliseconds.
pub proof fn law_patience_runs_out_within_a_key(seen: Seq<u8>)
    ensures
        seen.len() == 0 <==> patience_after(seen) is None,
        seen.len() == 1 ==> patience_after(seen) == Some(300i32),
        seen.len() > 1 ==> patience_after(seen) == Some(60i32),
{
}

/// A read that got its byte is taken, one that got none means the end, and only one
/// that a signal cut short is tried again.
pub proof fn law_only_cut_reads_are_tried_again(count: isize, interrupted: bool)
    ensures
        read_outcome(count, interrupted) is Got <==> count == 1,
        read_outcome(count, interrupted) is Closed <==> count == 0,
        read_outcome(count, interrupted) is Retry <==> count != 0 && count != 1 && interrupted,
        read_outcome(count, interrupted) is Failed <==> count != 0 && count != 1 && !interrupted,
{
}

} // verus!
