//! The tag-list grammar, and small set operations on tag collections.
//!
//! A submitted tag string is lowercased and split at commas, with the
//! whitespace around each comma — any Unicode white-space scalar, as its
//! UTF-8 bytes — absorbed by the separator.  Every piece must then be a
//! nonempty run of ASCII letters, digits and hyphens; duplicate pieces
//! collapse to their first occurrence.

use vstd::prelude::*;

verus! {

use crate::EngineError;

/// A single-byte UTF-8 white-space scalar: tab through carriage return,
/// or the space.
pub open spec fn is_space_byte(b: u8) -> bool {
    (9 <= b <= 13) || b == 32
}

/// A two-byte UTF-8 white-space scalar: the next-line control (U+0085) or
/// the no-break space (U+00A0).
pub open spec fn is_space_pair(a: u8, b: u8) -> bool {
    a == 0xc2 && (b == 0x85 || b == 0xa0)
}

/// A three-byte UTF-8 white-space scalar: the Ogham space mark (U+1680),
/// the typographic spaces U+2000 through U+200A, the line and paragraph
/// separators (U+2028, U+2029), the narrow no-break space (U+202F), the
/// medium mathematical space (U+205F), or the ideographic space (U+3000).
pub open spec fn is_space_triple(a: u8, b: u8, c: u8) -> bool {
    (a == 0xe1 && b == 0x9a && c == 0x80) || (a == 0xe2 && b == 0x80 && (0x80 <= c <= 0x8a || c
        == 0xa8 || c == 0xa9 || c == 0xaf)) || (a == 0xe2 && b == 0x81 && c == 0x9f) || (a == 0xe3
        && b == 0x80 && c == 0x80)
}

/// The byte length of the white-space scalar at the front of `s`, zero
/// when `s` does not begin with whitespace.
pub open spec fn space_len_at_front(s: Seq<u8>) -> int {
    if s.len() >= 1 && is_space_byte(s[0]) {
        1
    } else if s.len() >= 2 && is_space_pair(s[0], s[1]) {
        2
    } else if s.len() >= 3 && is_space_triple(s[0], s[1], s[2]) {
        3
    } else {
        0
    }
}

/// The byte length of the white-space scalar at the back of `s`, zero when
/// `s` does not end with whitespace.
pub open spec fn space_len_at_back(s: Seq<u8>) -> int {
    if s.len() >= 3 && is_space_triple(s[s.len() - 3], s[s.len() - 2], s[s.len() - 1]) {
        3
    } else if s.len() >= 2 && is_space_pair(s[s.len() - 2], s[s.len() - 1]) {
        2
    } else if s.len() >= 1 && is_space_byte(s[s.len() - 1]) {
        1
    } else {
        0
    }
}

/// A byte a lowercased tag may hold: a lowercase letter, a digit or a
/// hyphen.
pub open spec fn is_tag_byte(b: u8) -> bool {
    (97 <= b <= 122) || (48 <= b <= 57) || b == 45
}

/// ASCII lowercasing of one byte.
pub open spec fn lower(b: u8) -> u8 {
    if 65 <= b <= 90 {
        (b + 32) as u8
    } else {
        b
    }
}

/// ASCII lowercasing of a byte string.
pub open spec fn lower_seq(s: Seq<u8>) -> Seq<u8> {
    s.map_values(|b: u8| lower(b))
}

/// The index of the first comma, or the length when there is none.
pub open spec fn first_comma(s: Seq<u8>) -> int
    decreases s.len(),
{
    if s.len() == 0 {
        0
    } else if s[0] == 44 {
        0
    } else {
        1 + first_comma(s.drop_first())
    }
}

/// The pieces of `s` between its commas, in order, untrimmed.
pub open spec fn split_commas(s: Seq<u8>) -> Seq<Seq<u8>>
    decreases s.len(),
{
    let c = first_comma(s);
    if 0 <= c < s.len() {
        seq![s.subrange(0, c)] + split_commas(s.subrange(c + 1, s.len() as int))
    } else {
        seq![s]
    }
}

/// `s` without its trailing whitespace: white-space scalars are peeled
/// off the back, whole, until a non-space byte sequence remains.
pub open spec fn trim_right(s: Seq<u8>) -> Seq<u8>
    decreases s.len(),
{
    let k = space_len_at_back(s);
    if k > 0 {
        trim_right(s.subrange(0, s.len() - k))
    } else {
        s
    }
}

/// `s` without its leading whitespace: white-space scalars are peeled off
/// the front, whole, until a non-space byte sequence remains.
pub open spec fn trim_left(s: Seq<u8>) -> Seq<u8>
    decreases s.len(),
{
    let k = space_len_at_front(s);
    if k > 0 {
        trim_left(s.subrange(k, s.len() as int))
    } else {
        s
    }
}

/// Each piece with the whitespace its neighbouring commas absorb removed:
/// every piece but the first loses leading whitespace, every piece but the
/// last loses trailing whitespace.
pub open spec fn trim_pieces(ps: Seq<Seq<u8>>) -> Seq<Seq<u8>> {
    Seq::new(
        ps.len(),
        |i: int|
            {
                let left = if i > 0 {
                    trim_left(ps[i])
                } else {
                    ps[i]
                };
                if i < ps.len() - 1 {
                    trim_right(left)
                } else {
                    left
                }
            },
    )
}

/// The tag pieces a submitted string denotes: lowercased, split at commas,
/// comma-adjacent whitespace dropped.
pub open spec fn tag_pieces(s: Seq<u8>) -> Seq<Seq<u8>> {
    trim_pieces(split_commas(lower_seq(s)))
}

/// A valid tag: nonempty, all letters, digits and hyphens.
pub open spec fn piece_valid(p: Seq<u8>) -> bool {
    p.len() >= 1 && forall|i: int| 0 <= i < p.len() ==> is_tag_byte(#[trigger] p[i])
}

/// Every piece of the submitted string is a valid tag.
pub open spec fn pieces_valid(ps: Seq<Seq<u8>>) -> bool {
    forall|i: int| 0 <= i < ps.len() ==> piece_valid(#[trigger] ps[i])
}

/// The byte strings a list of byte vectors holds.
pub open spec fn views(v: Seq<Vec<u8>>) -> Seq<Seq<u8>> {
    Seq::new(v.len(), |i: int| v[i]@)
}

/// The pieces with each repeated piece collapsed onto its first occurrence.
pub open spec fn dedup_pieces(ps: Seq<Seq<u8>>) -> Seq<Seq<u8>>
    decreases ps.len(),
{
    if ps.len() == 0 {
        Seq::empty()
    } else {
        let rest = dedup_pieces(ps.drop_last());
        if ps.drop_last().contains(ps.last()) {
            rest
        } else {
            rest.push(ps.last())
        }
    }
}

/// What a submitted tag string parses to: its deduplicated pieces, or
/// nothing when some piece is not a valid tag.
pub open spec fn spec_string_to_tags(s: Seq<u8>) -> Option<Seq<Seq<u8>>> {
    if pieces_valid(tag_pieces(s)) {
        Some(dedup_pieces(tag_pieces(s)))
    } else {
        None
    }
}

/// Parse a submitted tag string: lowercase it, split it at commas with the
/// surrounding whitespace, demand every piece be a nonempty run of letters,
/// digits and hyphens, and drop repeated pieces.
///
/// Fails with [`EngineError::InvalidTags`] exactly when some piece is not a
/// valid tag — an empty piece included, so an empty submission is invalid.
pub fn string_to_tags(tags: &Vec<u8>) -> (r: Result<Vec<Vec<u8>>, EngineError>)
    ensures
        r is Ok <==> pieces_valid(tag_pieces(tags@)),
        r matches Ok(v) ==> {
            &&& views(v@) == dedup_pieces(tag_pieces(tags@))
            &&& Some(views(v@)) == spec_string_to_tags(tags@)
        },
        r is Err ==> r == Err::<Vec<Vec<u8>>, EngineError>(EngineError::InvalidTags),
{
    let lowered = lower_bytes(tags);
    let pieces = split_at_commas(&lowered);
    let trimmed = trim_all(pieces);
    let n: usize = trimmed.len();
    let mut i: usize = 0;
    while i < n
        invariant
            n == trimmed@.len(),
            0 <= i <= n,
            views(trimmed@) == tag_pieces(tags@),
            forall|j: int| 0 <= j < i ==> piece_valid(#[trigger] views(trimmed@)[j]),
        decreases n - i,
    {
        if !piece_ok(&trimmed[i]) {
            proof {
                assert(!piece_valid(views(trimmed@)[i as int]));
            }
            return Err(EngineError::InvalidTags);
        }
        i = i + 1;
    }
    Ok(dedup(trimmed))
}

/// Lowercase every byte.
fn lower_bytes(s: &Vec<u8>) -> (r: Vec<u8>)
    ensures
        r@ == lower_seq(s@),
{
    let n: usize = s.len();
    let mut out: Vec<u8> = Vec::new();
    let mut i: usize = 0;
    while i < n
        invariant
            n == s@.len(),
            0 <= i <= n,
            out@.len() == i,
            forall|j: int| 0 <= j < i ==> out@[j] == lower(#[trigger] s@[j]),
        decreases n - i,
    {
        let b = s[i];
        if 65 <= b && b <= 90 {
            out.push(b + 32);
        } else {
            out.push(b);
        }
        i = i + 1;
    }
    proof {
        assert(out@ =~= lower_seq(s@));
    }
    out
}

/// Where the first comma of a suffix sits.
proof fn lemma_first_comma_charact(s: Seq<u8>, c: int)
    requires
        0 <= c <= s.len(),
        forall|j: int| 0 <= j < c ==> s[j] != 44,
        c < s.len() ==> s[c] == 44,
    ensures
        first_comma(s) == c,
    decreases s.len(),
{
    if s.len() > 0 && c > 0 {
        lemma_first_comma_charact(s.drop_first(), c - 1);
    }
}

/// Split a lowercased byte string at its commas.
fn split_at_commas(s: &Vec<u8>) -> (r: Vec<Vec<u8>>)
    ensures
        views(r@) == split_commas(s@),
{
    let n: usize = s.len();
    let mut out: Vec<Vec<u8>> = Vec::new();
    let mut start: usize = 0;
    let mut i: usize = 0;
    proof {
        assert(s@.subrange(0, n as int) =~= s@);
        assert(views(out@) + split_commas(s@) =~~= split_commas(s@));
    }
    while i < n
        invariant
            n == s@.len(),
            0 <= start <= i <= n,
            forall|j: int| start <= j < i ==> s@[j] != 44,
            split_commas(s@) == views(out@) + split_commas(
                s@.subrange(start as int, n as int),
            ),
        decreases n - i,
    {
        if s[i] == 44 {
            let ghost suffix = s@.subrange(start as int, n as int);
            let piece = copy_range(s, start, i);
            proof {
                lemma_first_comma_charact(suffix, i - start);
                assert(suffix.subrange(0, i - start) =~= s@.subrange(start as int, i as int));
                assert(suffix.subrange(i - start + 1, suffix.len() as int) =~= s@.subrange(
                    i + 1,
                    n as int,
                ));
                assert(split_commas(suffix) == seq![s@.subrange(start as int, i as int)]
                    + split_commas(s@.subrange(i + 1, n as int)));
                assert((views(out@).push(piece@)) =~~= views(out@) + seq![piece@]);
                assert(views(out@) + (seq![piece@] + split_commas(s@.subrange(i + 1, n as int)))
                    =~~= (views(out@) + seq![piece@]) + split_commas(
                    s@.subrange(i + 1, n as int),
                ));
            }
            let ghost before = views(out@);
            out.push(piece);
            proof {
                assert(views(out@) =~~= before.push(s@.subrange(start as int, i as int)));
            }
            start = i + 1;
        }
        i = i + 1;
    }
    let ghost suffix = s@.subrange(start as int, n as int);
    let piece = copy_range(s, start, n);
    proof {
        lemma_first_comma_charact(suffix, suffix.len() as int);
        assert(split_commas(suffix) == seq![suffix]);
    }
    let ghost before = views(out@);
    out.push(piece);
    proof {
        assert(views(out@) =~~= before.push(suffix));
        assert(views(out@) =~~= before + seq![suffix]);
    }
    out
}

/// Copy the bytes of `s[from..to]`.
fn copy_range(s: &Vec<u8>, from: usize, to: usize) -> (r: Vec<u8>)
    requires
        from <= to <= s@.len(),
    ensures
        r@ == s@.subrange(from as int, to as int),
{
    let mut out: Vec<u8> = Vec::new();
    let mut i: usize = from;
    while i < to
        invariant
            from <= i <= to <= s@.len(),
            out@.len() == i - from,
            forall|j: int| 0 <= j < out@.len() ==> #[trigger] out@[j] == s@[from + j],
        decreases to - i,
    {
        out.push(s[i]);
        i = i + 1;
    }
    proof {
        assert(out@ =~= s@.subrange(from as int, to as int));
    }
    out
}

/// The byte length of the white-space scalar starting at index `i`.
fn space_len_from(p: &Vec<u8>, i: usize) -> (k: usize)
    requires
        i <= p@.len(),
    ensures
        k == space_len_at_front(p@.subrange(i as int, p@.len() as int)),
        i + k <= p@.len(),
{
    let n: usize = p.len();
    let ghost s = p@.subrange(i as int, n as int);
    proof {
        assert(s.len() == n - i);
        assert(forall|j: int| 0 <= j < s.len() ==> #[trigger] s[j] == p@[i + j]);
    }
    if i < n && is_space_byte_exec(p[i]) {
        1
    } else if n - i >= 2 && p[i] == 0xc2 && (p[i + 1] == 0x85 || p[i + 1] == 0xa0) {
        2
    } else if n - i >= 3 && is_space_triple_exec(p[i], p[i + 1], p[i + 2]) {
        3
    } else {
        0
    }
}

/// The byte length of the white-space scalar ending just before index `e`.
fn space_len_to(p: &Vec<u8>, e: usize) -> (k: usize)
    requires
        e <= p@.len(),
    ensures
        k == space_len_at_back(p@.subrange(0, e as int)),
        k <= e,
{
    let ghost s = p@.subrange(0, e as int);
    proof {
        assert(s.len() == e);
        assert(forall|j: int| 0 <= j < s.len() ==> #[trigger] s[j] == p@[j]);
    }
    if e >= 3 && is_space_triple_exec(p[e - 3], p[e - 2], p[e - 1]) {
        3
    } else if e >= 2 && p[e - 2] == 0xc2 && (p[e - 1] == 0x85 || p[e - 1] == 0xa0) {
        2
    } else if e >= 1 && is_space_byte_exec(p[e - 1]) {
        1
    } else {
        0
    }
}

/// Whether a byte alone is a white-space scalar.
fn is_space_byte_exec(b: u8) -> (r: bool)
    ensures
        r == is_space_byte(b),
{
    (9 <= b && b <= 13) || b == 32
}

/// Whether three bytes form a three-byte white-space scalar.
fn is_space_triple_exec(a: u8, b: u8, c: u8) -> (r: bool)
    ensures
        r == is_space_triple(a, b, c),
{
    (a == 0xe1 && b == 0x9a && c == 0x80) || (a == 0xe2 && b == 0x80 && ((0x80 <= c && c <= 0x8a)
        || c == 0xa8 || c == 0xa9 || c == 0xaf)) || (a == 0xe2 && b == 0x81 && c == 0x9f) || (a
        == 0xe3 && b == 0x80 && c == 0x80)
}

/// Remove a piece's trailing whitespace.
fn trim_right_exec(p: &Vec<u8>) -> (r: Vec<u8>)
    ensures
        r@ == trim_right(p@),
{
    let n: usize = p.len();
    let mut e: usize = n;
    proof {
        assert(p@.subrange(0, n as int) =~= p@);
    }
    loop
        invariant_except_break
            e <= n,
            n == p@.len(),
            trim_right(p@) == trim_right(p@.subrange(0, e as int)),
        ensures
            e <= n,
            n == p@.len(),
            trim_right(p@) == p@.subrange(0, e as int),
        decreases e,
    {
        let k = space_len_to(p, e);
        if k == 0 {
            break ;
        }
        proof {
            let s = p@.subrange(0, e as int);
            assert(trim_right(s) == trim_right(s.subrange(0, s.len() - k)));
            assert(s.subrange(0, s.len() - k) =~= p@.subrange(0, e - k));
        }
        e = e - k;
    }
    copy_range(p, 0, e)
}

/// Remove a piece's leading whitespace.
fn trim_left_exec(p: &Vec<u8>) -> (r: Vec<u8>)
    ensures
        r@ == trim_left(p@),
{
    let n: usize = p.len();
    let mut b: usize = 0;
    proof {
        assert(p@.subrange(0, n as int) =~= p@);
    }
    loop
        invariant_except_break
            b <= n,
            n == p@.len(),
            trim_left(p@) == trim_left(p@.subrange(b as int, n as int)),
        ensures
            b <= n,
            n == p@.len(),
            trim_left(p@) == p@.subrange(b as int, n as int),
        decreases n - b,
    {
        let k = space_len_from(p, b);
        if k == 0 {
            proof {
                assert(trim_left(p@.subrange(b as int, n as int)) == p@.subrange(
                    b as int,
                    n as int,
                ));
            }
            break ;
        }
        proof {
            let s = p@.subrange(b as int, n as int);
            assert(trim_left(s) == trim_left(s.subrange(k as int, s.len() as int)));
            assert(s.subrange(k as int, s.len() as int) =~= p@.subrange((b + k) as int, n as int));
        }
        b = b + k;
    }
    copy_range(p, b, n)
}

/// Apply the comma-adjacent trimming to every piece.
fn trim_all(pieces: Vec<Vec<u8>>) -> (r: Vec<Vec<u8>>)
    ensures
        views(r@) == trim_pieces(views(pieces@)),
{
    let n: usize = pieces.len();
    let mut out: Vec<Vec<u8>> = Vec::new();
    let mut i: usize = 0;
    while i < n
        invariant
            n == pieces@.len(),
            0 <= i <= n,
            out@.len() == i,
            forall|j: int|
                0 <= j < i ==> #[trigger] views(out@)[j] == trim_pieces(views(pieces@))[j],
        decreases n - i,
    {
        let piece = if i > 0 {
            trim_left_exec(&pieces[i])
        } else {
            let p = &pieces[i];
            copy_range(p, 0, p.len())
        };
        let piece = if i < n - 1 {
            trim_right_exec(&piece)
        } else {
            piece
        };
        proof {
            assert(pieces@[i as int]@ =~= pieces@[i as int]@.subrange(
                0,
                pieces@[i as int]@.len() as int,
            ));
        }
        let ghost out_prev = out@;
        out.push(piece);
        i = i + 1;
        proof {
            assert forall|j: int| 0 <= j < i implies #[trigger] views(out@)[j] == trim_pieces(
                views(pieces@),
            )[j] by {
                if j < i - 1 {
                    assert(out@[j] == out_prev[j]);
                    assert(views(out_prev)[j] == out_prev[j]@);
                } else {
                    assert(views(out@)[j] == piece@);
                }
            }
        }
    }
    proof {
        assert(views(out@) =~~= trim_pieces(views(pieces@)));
    }
    out
}

/// Whether a piece is a valid tag.
fn piece_ok(p: &Vec<u8>) -> (r: bool)
    ensures
        r == piece_valid(p@),
{
    let n: usize = p.len();
    if n == 0 {
        return false;
    }
    let mut i: usize = 0;
    while i < n
        invariant
            n == p@.len(),
            0 <= i <= n,
            forall|j: int| 0 <= j < i ==> is_tag_byte(#[trigger] p@[j]),
        decreases n - i,
    {
        let b = p[i];
        if !((97 <= b && b <= 122) || (48 <= b && b <= 57) || b == 45) {
            proof {
                assert(!is_tag_byte(p@[i as int]));
            }
            return false;
        }
        i = i + 1;
    }
    true
}

/// Whether some earlier piece holds the same bytes.
fn contains_piece(ps: &Vec<Vec<u8>>, p: &Vec<u8>) -> (r: bool)
    ensures
        r == views(ps@).contains(p@),
{
    let n: usize = ps.len();
    let mut i: usize = 0;
    while i < n
        invariant
            n == ps@.len(),
            0 <= i <= n,
            forall|j: int| 0 <= j < i ==> #[trigger] views(ps@)[j] != p@,
        decreases n - i,
    {
        if bytes_eq(&ps[i], p) {
            proof {
                assert(views(ps@)[i as int] == p@);
            }
            return true;
        }
        i = i + 1;
    }
    proof {
        assert(!views(ps@).contains(p@)) by {
            assert(forall|j: int| 0 <= j < views(ps@).len() ==> #[trigger] views(ps@)[j] != p@);
        }
    }
    false
}

/// Compare two byte strings.
fn bytes_eq(a: &Vec<u8>, b: &Vec<u8>) -> (r: bool)
    ensures
        r == (a@ == b@),
{
    let n: usize = a.len();
    if n != b.len() {
        proof {
            assert(a@ != b@);
        }
        return false;
    }
    let mut i: usize = 0;
    while i < n
        invariant
            n == a@.len() == b@.len(),
            0 <= i <= n,
            forall|j: int| 0 <= j < i ==> a@[j] == b@[j],
        decreases n - i,
    {
        if a[i] != b[i] {
            return false;
        }
        i = i + 1;
    }
    proof {
        assert(a@ =~= b@);
    }
    true
}

/// Drop repeated pieces, keeping first occurrences.
fn dedup(pieces: Vec<Vec<u8>>) -> (r: Vec<Vec<u8>>)
    ensures
        views(r@) == dedup_pieces(views(pieces@)),
{
    let n: usize = pieces.len();
    let mut out: Vec<Vec<u8>> = Vec::new();
    let mut i: usize = 0;
    while i < n
        invariant
            n == pieces@.len(),
            0 <= i <= n,
            views(out@) == dedup_pieces(views(pieces@).subrange(0, i as int)),
            forall|j: int|
                0 <= j < out@.len() ==> views(pieces@).subrange(0, i as int).contains(
                    #[trigger] views(out@)[j],
                ),
        decreases n - i,
    {
        let ghost prefix = views(pieces@).subrange(0, i as int);
        let seen = contains_piece(&out, &pieces[i]);
        let ghost out_before = views(out@);
        if !seen {
            let p = &pieces[i];
            out.push(copy_range(p, 0, p.len()));
        }
        i = i + 1;
        proof {
            let next = views(pieces@).subrange(0, i as int);
            assert(next.drop_last() =~= prefix);
            assert(next.last() == views(pieces@)[i - 1]);
            assert(pieces@[i - 1]@ =~= pieces@[i - 1]@.subrange(
                0,
                pieces@[i - 1]@.len() as int,
            ));
            lemma_dedup_membership(prefix, views(pieces@)[i - 1], out_before);
            if !seen {
                assert(views(out@) =~~= out_before.push(views(pieces@)[i - 1]));
            }
            assert forall|j: int| 0 <= j < out@.len() implies next.contains(
                #[trigger] views(out@)[j],
            ) by {
                if j < out_before.len() {
                    assert(prefix.contains(out_before[j]));
                    let k = choose|k: int|
                        0 <= k < prefix.len() && #[trigger] prefix[k] == out_before[j];
                    assert(next[k] == views(out@)[j]);
                } else {
                    assert(next[i - 1] == views(out@)[j]);
                }
            }
        }
    }
    proof {
        assert(views(pieces@).subrange(0, n as int) =~= views(pieces@));
    }
    out
}

/// A piece appears in the deduplicated list exactly when it appears in the
/// original pieces.
proof fn lemma_dedup_membership(prefix: Seq<Seq<u8>>, x: Seq<u8>, d: Seq<Seq<u8>>)
    requires
        d == dedup_pieces(prefix),
    ensures
        d.contains(x) <==> prefix.contains(x),
    decreases prefix.len(),
{
    if prefix.len() == 0 {
        assert(!d.contains(x));
        assert(!prefix.contains(x));
    } else {
        let p0 = prefix.drop_last();
        let rest = dedup_pieces(p0);
        let last = prefix.last();
        lemma_dedup_membership(p0, x, rest);
        if prefix.contains(x) {
            let k = choose|k: int| 0 <= k < prefix.len() && prefix[k] == x;
            if k < prefix.len() - 1 {
                assert(p0[k] == x);
                assert(p0.contains(x));
                let m = choose|m: int| 0 <= m < rest.len() && rest[m] == x;
                assert(d[m] == x);
                assert(d.contains(x));
            } else {
                assert(x == last);
                if p0.contains(last) {
                    let m = choose|m: int| 0 <= m < rest.len() && rest[m] == x;
                    assert(d[m] == x);
                    assert(d.contains(x));
                } else {
                    assert(d == rest.push(last));
                    assert(d[rest.len() as int] == x);
                    assert(d.contains(x));
                }
            }
        }
        if d.contains(x) {
            let k = choose|k: int| 0 <= k < d.len() && d[k] == x;
            if p0.contains(last) {
                assert(d == rest);
                assert(rest.contains(x));
                let m = choose|m: int| 0 <= m < p0.len() && p0[m] == x;
                assert(prefix[m] == x);
                assert(prefix.contains(x));
            } else {
                assert(d == rest.push(last));
                if k < rest.len() {
                    assert(rest[k] == x);
                    assert(rest.contains(x));
                    let m = choose|m: int| 0 <= m < p0.len() && p0[m] == x;
                    assert(prefix[m] == x);
                    assert(prefix.contains(x));
                } else {
                    assert(x == last);
                    assert(prefix[prefix.len() - 1] == x);
                    assert(prefix.contains(x));
                }
            }
        }
    }
}


/// Whether some string in the list reads `x`.
pub open spec fn contains_str(s: Seq<String>, x: Seq<char>) -> bool {
    exists|i: int| 0 <= i < s.len() && (#[trigger] s[i])@ == x
}

/// The elements of `a` that also appear in `b`, in `a`'s order.
pub open spec fn intersect_tags(a: Seq<String>, b: Seq<String>) -> Seq<String>
    decreases a.len(),
{
    if a.len() == 0 {
        Seq::empty()
    } else {
        let rest = intersect_tags(a.drop_last(), b);
        if contains_str(b, a.last()@) {
            rest.push(a.last())
        } else {
            rest
        }
    }
}

/// The elements of `a` that do not appear in `b`, in `a`'s order.
pub open spec fn diff_tags(a: Seq<String>, b: Seq<String>) -> Seq<String>
    decreases a.len(),
{
    if a.len() == 0 {
        Seq::empty()
    } else {
        let rest = diff_tags(a.drop_last(), b);
        if contains_str(b, a.last()@) {
            rest
        } else {
            rest.push(a.last())
        }
    }
}

/// Whether the list holds a string reading like `x`.
fn list_contains(s: &Vec<String>, x: &String) -> (r: bool)
    ensures
        r == contains_str(s@, x@),
{
    let n: usize = s.len();
    let mut i: usize = 0;
    while i < n
        invariant
            n == s@.len(),
            0 <= i <= n,
            forall|j: int| 0 <= j < i ==> (#[trigger] s@[j])@ != x@,
        decreases n - i,
    {
        if s[i].eq(x) {
            proof {
                assert((s@[i as int])@ == x@);
            }
            return true;
        }
        i = i + 1;
    }
    false
}

/// The tags two entities share: the elements of `a` that also stand in
/// `b`, in `a`'s order.
pub fn shared_tags(a: &Vec<String>, b: &Vec<String>) -> (r: Vec<String>)
    ensures
        r@ == intersect_tags(a@, b@),
{
    let n: usize = a.len();
    let mut out: Vec<String> = Vec::new();
    let mut i: usize = 0;
    while i < n
        invariant
            n == a@.len(),
            0 <= i <= n,
            out@ == intersect_tags(a@.subrange(0, i as int), b@),
        decreases n - i,
    {
        let ghost prefix = a@.subrange(0, i as int);
        if list_contains(b, &a[i]) {
            out.push(a[i].clone());
        }
        i = i + 1;
        proof {
            let next = a@.subrange(0, i as int);
            assert(next.drop_last() =~= prefix);
            assert(next.last() == a@[i - 1]);
        }
    }
    proof {
        assert(a@.subrange(0, n as int) =~= a@);
    }
    out
}

/// The tags of `a` that `b` lacks: what editing a tag set must add (new
/// minus old) or delete (old minus new).
pub fn tag_set_diff(a: &Vec<String>, b: &Vec<String>) -> (r: Vec<String>)
    ensures
        r@ == diff_tags(a@, b@),
{
    let n: usize = a.len();
    let mut out: Vec<String> = Vec::new();
    let mut i: usize = 0;
    while i < n
        invariant
            n == a@.len(),
            0 <= i <= n,
            out@ == diff_tags(a@.subrange(0, i as int), b@),
        decreases n - i,
    {
        let ghost prefix = a@.subrange(0, i as int);
        if !list_contains(b, &a[i]) {
            out.push(a[i].clone());
        }
        i = i + 1;
        proof {
            let next = a@.subrange(0, i as int);
            assert(next.drop_last() =~= prefix);
            assert(next.last() == a@[i - 1]);
        }
    }
    proof {
        assert(a@.subrange(0, n as int) =~= a@);
    }
    out
}

} // verus!
