//! Bytes and paths. A path is the sequence of bytes that the system knows it
//! by, with `/` between its parts.

use vstd::prelude::*;

verus! {

/// The pieces between separators: one more than there are separators.
pub open spec fn split(s: Seq<u8>, sep: u8) -> Seq<Seq<u8>>
    decreases s.len(),
{
    if s.len() == 0 {
        seq![Seq::empty()]
    } else {
        let before = split(s.drop_last(), sep);
        if s.last() == sep {
            before.push(Seq::empty())
        } else {
            before.drop_last().push(before.last().push(s.last()))
        }
    }
}

/// The bytes of each piece.
pub open spec fn pieces(v: Seq<Vec<u8>>) -> Seq<Seq<u8>> {
    v.map_values(|p: Vec<u8>| p@)
}

/// The bytes of an optional slice.
pub open spec fn opt_bytes(s: Option<&[u8]>) -> Option<Seq<u8>> {
    match s {
        Some(b) => Some(b@),
        None => None,
    }
}

/// The bytes of an optional vector.
pub open spec fn opt_vec(v: Option<Vec<u8>>) -> Option<Seq<u8>> {
    match v {
        Some(b) => Some(b@),
        None => None,
    }
}

/// The pieces between separators.
pub fn split_at_each(s: &[u8], sep: u8) -> (r: Vec<Vec<u8>>)
    ensures
        pieces(r@) == split(s@, sep),
        r@.len() > 0,
{
    let mut out: Vec<Vec<u8>> = Vec::new();
    let mut piece: Vec<u8> = Vec::new();
    let mut i: usize = 0;
    assert(s@.take(0) =~= Seq::empty());
    assert(pieces(out@).push(piece@) =~= seq![Seq::empty()]);
    while i < s.len()
        invariant
            i <= s@.len(),
            split(s@.take(i as int), sep) == pieces(out@).push(piece@),
        decreases s@.len() - i,
    {
        proof {
            assert(s@.take(i + 1).drop_last() =~= s@.take(i as int));
            assert(pieces(out@).push(piece@).drop_last() =~= pieces(out@));
        }
        if s[i] == sep {
            let ghost before = out@;
            let ghost last = piece@;
            out.push(piece);
            piece = Vec::new();
            assert(pieces(out@) =~= pieces(before).push(last));
        } else {
            piece.push(s[i]);
        }
        i += 1;
    }
    assert(s@.take(i as int) =~= s@);
    let ghost before = out@;
    let ghost last = piece@;
    out.push(piece);
    assert(pieces(out@) =~= pieces(before).push(last));
    out
}

/// The same bytes on both sides.
pub fn same_bytes(a: &[u8], b: &[u8]) -> (r: bool)
    ensures
        r == (a@ == b@),
{
    if a.len() != b.len() {
        return false;
    }
    let mut i: usize = 0;
    while i < a.len()
        invariant
            i <= a@.len(),
            a@.len() == b@.len(),
            forall|j: int| 0 <= j < i ==> a@[j] == b@[j],
        decreases a@.len() - i,
    {
        if a[i] != b[i] {
            return false;
        }
        i += 1;
    }
    assert(a@ =~= b@);
    true
}

/// A copy of some bytes.
pub fn copy_bytes(s: &[u8]) -> (r: Vec<u8>)
    ensures
        r@ == s@,
{
    let mut r: Vec<u8> = Vec::new();
    push_bytes(&mut r, s);
    assert(r@ =~= s@);
    r
}

/// Puts some bytes behind those of a vector.
pub fn push_bytes(v: &mut Vec<u8>, s: &[u8])
    ensures
        final(v)@ == old(v)@ + s@,
{
    let mut i: usize = 0;
    assert(old(v)@ + s@.take(0) =~= old(v)@);
    while i < s.len()
        invariant
            i <= s@.len(),
            v@ == old(v)@ + s@.take(i as int),
        decreases s@.len() - i,
    {
        v.push(s[i]);
        assert(v@ =~= old(v)@ + s@.take(i + 1));
        i += 1;
    }
    assert(s@.take(i as int) =~= s@);
}

// --- paths ------------------------------------------------------------------

pub const SLASH: u8 = 0x2f;

pub const DOT: u8 = 0x2e;

/// The path starts at the root.
pub open spec fn is_absolute(path: Seq<u8>) -> bool {
    path.len() > 0 && path[0] == SLASH
}

/// `rest` seen from `base`: an absolute path stands for itself, another is put
/// behind `base` with one `/` between them.
pub open spec fn joined(base: Seq<u8>, rest: Seq<u8>) -> Seq<u8> {
    if is_absolute(rest) {
        rest
    } else if base.len() > 0 && base.last() != SLASH {
        base.push(SLASH) + rest
    } else {
        base + rest
    }
}

/// The parts of a path that count, out of the pieces between slashes: empty
/// pieces and the current directory say nothing, except that a relative path
/// may start at the current directory.
pub open spec fn counted(between: Seq<Seq<u8>>) -> Seq<Seq<u8>>
    decreases between.len(),
{
    if between.len() == 0 {
        Seq::empty()
    } else {
        let before = counted(between.drop_last());
        let last = between.last();
        if last.len() == 0 || (last == seq![DOT] && between.len() > 1) {
            before
        } else {
            before.push(last)
        }
    }
}

/// The parts of a path.
pub open spec fn parts(path: Seq<u8>) -> Seq<Seq<u8>> {
    counted(split(path, SLASH))
}

/// Two paths that are the same, part for part.
pub open spec fn equal_paths(a: Seq<u8>, b: Seq<u8>) -> bool {
    is_absolute(a) == is_absolute(b) && parts(a) == parts(b)
}

/// Whether the path starts at the root.
pub fn absolute(path: &[u8]) -> (r: bool)
    ensures
        r == is_absolute(path@),
{
    path.len() > 0 && path[0] == SLASH
}

/// `rest` seen from `base`.
pub fn join(base: &[u8], rest: &[u8]) -> (r: Vec<u8>)
    ensures
        r@ == joined(base@, rest@),
{
    if absolute(rest) {
        return copy_bytes(rest);
    }
    let mut r = copy_bytes(base);
    if base.len() > 0 && base[base.len() - 1] != SLASH {
        r.push(SLASH);
    }
    push_bytes(&mut r, rest);
    r
}

fn path_parts(path: &[u8]) -> (r: Vec<Vec<u8>>)
    ensures
        pieces(r@) == parts(path@),
{
    let between = split_at_each(path, SLASH);
    let ghost all = pieces(between@);
    let mut out: Vec<Vec<u8>> = Vec::new();
    let mut i: usize = 0;
    assert(pieces(out@) =~= counted(all.take(0)));
    while i < between.len()
        invariant
            i <= between@.len(),
            all == pieces(between@),
            pieces(out@) == counted(all.take(i as int)),
        decreases between@.len() - i,
    {
        let piece = &between[i];
        let ghost before = out@;
        proof {
            assert(all.take(i + 1).drop_last() =~= all.take(i as int));
            assert(all.take(i + 1).last() == piece@);
            assert((piece@ == seq![DOT]) == (piece@.len() == 1 && piece@[0] == DOT)) by {
                if piece@.len() == 1 && piece@[0] == DOT {
                    assert(piece@ =~= seq![DOT]);
                }
            }
        }
        if !(piece.len() == 0 || (piece.len() == 1 && piece[0] == DOT && i > 0)) {
            out.push(copy_bytes(piece.as_slice()));
            assert(pieces(out@) =~= pieces(before).push(piece@));
        }
        i += 1;
    }
    assert(all.take(i as int) =~= all);
    out
}

/// Whether two paths are the same, part for part.
pub fn paths_equal(a: &[u8], b: &[u8]) -> (r: bool)
    ensures
        r == equal_paths(a@, b@),
{
    if absolute(a) != absolute(b) {
        return false;
    }
    let x = path_parts(a);
    let y = path_parts(b);
    assert(pieces(x@).len() == x@.len());
    assert(pieces(y@).len() == y@.len());
    if x.len() != y.len() {
        return false;
    }
    let mut i: usize = 0;
    while i < x.len()
        invariant
            i <= x@.len(),
            x@.len() == y@.len(),
            pieces(x@) == parts(a@),
            pieces(y@) == parts(b@),
            forall|j: int| 0 <= j < i ==> pieces(x@)[j] == pieces(y@)[j],
        decreases x@.len() - i,
    {
        if !same_bytes(x[i].as_slice(), y[i].as_slice()) {
            assert(pieces(x@)[i as int] != pieces(y@)[i as int]);
            return false;
        }
        i += 1;
    }
    assert(pieces(x@) =~= pieces(y@));
    true
}

// --- laws -------------------------------------------------------------------

/// The pieces put together again, with a separator between each two.
pub open spec fn with_between(all: Seq<Seq<u8>>, sep: u8) -> Seq<u8>
    decreases all.len(),
{
    if all.len() == 0 {
        Seq::empty()
    } else if all.len() == 1 {
        all[0]
    } else {
        with_between(all.drop_last(), sep).push(sep) + all.last()
    }
}

/// To split loses nothing but the separators: the pieces, put together with a
/// separator between each two, are what was split, and no piece holds one.
pub proof fn law_split_comes_apart_at_each_separator(s: Seq<u8>, sep: u8)
    ensures
        split(s, sep).len() > 0,
        with_between(split(s, sep), sep) == s,
        forall|i: int, j: int|
            0 <= i < split(s, sep).len() && 0 <= j < split(s, sep)[i].len() ==> #[trigger] split(
                s,
                sep,
            )[i][j] != sep,
    decreases s.len(),
{
    if s.len() == 0 {
        assert(with_between(split(s, sep), sep) =~= s);
    } else {
        let rest = s.drop_last();
        let before = split(rest, sep);
        let all = split(s, sep);
        law_split_comes_apart_at_each_separator(rest, sep);
        if s.last() == sep {
            assert(all.drop_last() =~= before);
            assert(with_between(all, sep) =~= s);
            assert forall|i: int, j: int|
                0 <= i < all.len() && 0 <= j < all[i].len() implies #[trigger] all[i][j] != sep by {
                assert(all[i] == before[i]);
                assert(before[i][j] != sep);
            }
        } else {
            assert(all.drop_last() =~= before.drop_last());
            assert(all.last() == before.last().push(s.last()));
            assert(with_between(all, sep) =~= with_between(before, sep).push(s.last()));
            assert(rest.push(s.last()) =~= s);
            assert forall|i: int, j: int|
                0 <= i < all.len() && 0 <= j < all[i].len() implies #[trigger] all[i][j] != sep by {
                if i < all.len() - 1 {
                    assert(all[i] == before[i]);
                    assert(before[i][j] != sep);
                } else if j < before.last().len() {
                    assert(before[before.len() - 1][j] != sep);
                }
            }
        }
    }
}

/// What stands on either side of a separator is split by itself.
pub proof fn law_split_goes_side_by_side(a: Seq<u8>, b: Seq<u8>, sep: u8)
    ensures
        split(a.push(sep) + b, sep) == split(a, sep) + split(b, sep),
    decreases b.len(),
{
    let s = a.push(sep) + b;
    law_split_comes_apart_at_each_separator(b, sep);
    if b.len() == 0 {
        assert(s =~= a.push(sep));
        assert(s.drop_last() =~= a);
        assert(split(s, sep) =~= split(a, sep) + split(b, sep));
    } else {
        let less = b.drop_last();
        law_split_goes_side_by_side(a, less, sep);
        law_split_comes_apart_at_each_separator(less, sep);
        assert(s.drop_last() =~= a.push(sep) + less);
        assert(s.last() == b.last());
        assert(split(s, sep) =~= split(a, sep) + split(b, sep));
    }
}

/// What holds no separator is one piece.
pub proof fn law_whole_piece_is_not_split(s: Seq<u8>, sep: u8)
    requires
        forall|i: int| 0 <= i < s.len() ==> #[trigger] s[i] != sep,
    ensures
        split(s, sep) == seq![s],
    decreases s.len(),
{
    if s.len() > 0 {
        let rest = s.drop_last();
        law_whole_piece_is_not_split(rest, sep);
        assert(s[s.len() - 1] != sep);
        assert(rest.push(s.last()) =~= s);
        assert(split(s, sep) =~= seq![s]);
    } else {
        assert(s =~= Seq::empty());
        assert(split(s, sep) =~= seq![s]);
    }
}

/// A path that starts with a slash stands for itself wherever it is seen from; any
/// other is put behind the base, with exactly one slash between them unless the
/// base is empty.
pub proof fn law_joining_goes_by_the_first_byte(base: Seq<u8>, rest: Seq<u8>)
    ensures
        rest.len() > 0 && rest[0] == 0x2f ==> joined(base, rest) == rest,
        !(rest.len() > 0 && rest[0] == 0x2f) && base.len() == 0 ==> joined(base, rest) == rest,
        !(rest.len() > 0 && rest[0] == 0x2f) && base.len() > 0 && base.last() == 0x2f ==> joined(
            base,
            rest,
        ) == base + rest,
        !(rest.len() > 0 && rest[0] == 0x2f) && base.len() > 0 && base.last() != 0x2f ==> joined(
            base,
            rest,
        ) == base + seq![0x2fu8] + rest,
        is_absolute(rest) <==> rest.len() > 0 && rest[0] == 0x2f,
{
    if base.len() == 0 {
        assert(base + rest =~= rest);
    }
    assert(base.push(0x2f) + rest =~= base + seq![0x2fu8] + rest);
}

/// The parts of a path grow by a name put behind a slash, and by nothing where
/// nothing or a dot is put there; a name by itself is its own only part.
pub proof fn law_parts_are_the_names(path: Seq<u8>, name: Seq<u8>)
    requires
        forall|i: int| 0 <= i < name.len() ==> #[trigger] name[i] != 0x2f,
    ensures
        parts(path.push(0x2f) + name) == (if name.len() == 0 || name == seq![0x2eu8] {
            parts(path)
        } else {
            parts(path).push(name)
        }),
        parts(name) == (if name.len() == 0 {
            Seq::empty()
        } else {
            seq![name]
        }),
{
    law_split_goes_side_by_side(path, name, SLASH);
    law_whole_piece_is_not_split(name, SLASH);
    law_split_comes_apart_at_each_separator(path, SLASH);
    let all = split(path.push(SLASH) + name, SLASH);
    assert(all =~= split(path, SLASH).push(name));
    assert(all.drop_last() =~= split(path, SLASH));
    let one = seq![name];
    assert(one.drop_last() =~= Seq::empty());
    reveal_with_fuel(counted, 2);
    assert(parts(name) =~= (if name.len() == 0 {
        Seq::empty()
    } else {
        seq![name]
    }));
}

/// Two paths are the same where both start at the root or neither does, and their
/// parts are the same. So a slash or a dot at the end changes nothing, and another
/// name does.
pub proof fn law_same_paths_have_the_same_parts(
    a: Seq<u8>,
    b: Seq<u8>,
    name: Seq<u8>,
    other: Seq<u8>,
)
    requires
        a.len() > 0,
        name.len() > 0,
        other.len() > 0,
        name != seq![0x2eu8],
        other != seq![0x2eu8],
        forall|i: int| 0 <= i < name.len() ==> #[trigger] name[i] != 0x2f,
        forall|i: int| 0 <= i < other.len() ==> #[trigger] other[i] != 0x2f,
    ensures
        equal_paths(a, a),
        equal_paths(a, b) == equal_paths(b, a),
        equal_paths(a, a.push(0x2f)),
        equal_paths(a, a.push(0x2f).push(0x2e)),
        equal_paths(a.push(0x2f) + name, a.push(0x2f) + other) ==> name == other,
        (a[0] == 0x2f) != (b.len() > 0 && b[0] == 0x2f) ==> !equal_paths(a, b),
        (a[0] == 0x2f) == (b.len() > 0 && b[0] == 0x2f) ==> equal_paths(a, b) == (parts(a)
            == parts(b)),
{
    law_parts_are_the_names(a, Seq::empty());
    law_parts_are_the_names(a, seq![0x2eu8]);
    law_parts_are_the_names(a, name);
    law_parts_are_the_names(a, other);
    assert(a.push(0x2f) + Seq::<u8>::empty() =~= a.push(0x2f));
    assert(a.push(0x2f) + seq![0x2eu8] =~= a.push(0x2f).push(0x2e));
    let x = parts(a).push(name);
    let y = parts(a).push(other);
    if x == y {
        assert(x.last() == y.last());
    }
}

/// The bytes of an optional slice or vector are what it holds.
pub proof fn law_bytes_are_what_is_held(s: &[u8], v: Vec<u8>, list: Seq<Vec<u8>>, i: int)
    ensures
        opt_bytes(Some(s)) == Some(s@),
        opt_bytes(None) is None,
        opt_vec(Some(v)) == Some(v@),
        opt_vec(None) is None,
        pieces(list).len() == list.len(),
        0 <= i < list.len() ==> pieces(list)[i] == list[i]@,
{
}

} // verus!
