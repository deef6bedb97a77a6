//! Wire framing of the relay protocol.
//!
//! Records travel as the textual encoding of a message, one object per
//! record, with no delimiter between consecutive records; the transport may
//! coalesce several records into one chunk. Boundaries are reconstructed
//! heuristically: the chunk is split on the two-byte sequence that closes
//! one object and opens the next, and the missing braces are re-attached to
//! each side. The heuristic is exact only for records whose payload never
//! holds that two-byte sequence; see [`lemma_two_records_reconstructed`].

use vstd::prelude::*;

verus! {

/// The byte that opens an object.
pub const OPEN_BRACE: u8 = 123;

/// The byte that closes an object.
pub const CLOSE_BRACE: u8 = 125;

/// The pieces of `s` between occurrences of the close-open boundary,
/// scanning from position `i` with the current piece started at `start`.
pub open spec fn split_from(s: Seq<u8>, start: int, i: int) -> Seq<Seq<u8>>
    recommends
        0 <= start <= i <= s.len(),
    decreases s.len() - i,
{
    if !(0 <= start <= i && i <= s.len()) {
        Seq::empty()
    } else if i + 1 >= s.len() {
        seq![s.subrange(start, s.len() as int)]
    } else if s[i] == CLOSE_BRACE && s[i + 1] == OPEN_BRACE {
        seq![s.subrange(start, i)] + split_from(s, i + 2, i + 2)
    } else {
        split_from(s, start, i + 1)
    }
}

/// Re-attaches the braces that splitting consumed: a piece is closed if it
/// does not already end with a closing brace, and opened if it does not
/// already start with an opening brace.
pub open spec fn fix_piece(p: Seq<u8>) -> Seq<u8> {
    let q = if p.len() > 0 && p.last() == CLOSE_BRACE {
        p
    } else {
        p.push(CLOSE_BRACE)
    };
    if q.len() > 0 && q[0] == OPEN_BRACE {
        q
    } else {
        seq![OPEN_BRACE] + q
    }
}

/// The records a raw chunk is parsed into.
pub open spec fn split_packets_spec(s: Seq<u8>) -> Seq<Seq<u8>> {
    split_from(s, 0, 0).map_values(|p: Seq<u8>| fix_piece(p))
}

/// A well-framed record: brace-delimited, with no close-open boundary
/// anywhere inside.
pub open spec fn is_record(r: Seq<u8>) -> bool {
    &&& r.len() >= 2
    &&& r[0] == OPEN_BRACE
    &&& r.last() == CLOSE_BRACE
    &&& forall|i: int| 0 <= i < r.len() - 1 ==> !(#[trigger] r[i] == CLOSE_BRACE && r[i + 1] == OPEN_BRACE)
}

fn byte_range(v: &[u8], a: usize, b: usize) -> (r: Vec<u8>)
    requires
        a <= b <= v.len(),
    ensures
        r@ == v@.subrange(a as int, b as int),
{
    let mut r: Vec<u8> = Vec::new();
    let mut i: usize = a;
    while i < b
        invariant
            a <= i <= b <= v.len(),
            r@ =~= v@.subrange(a as int, i as int),
        decreases b - i,
    {
        r.push(v[i]);
        proof {
            assert(r@ =~= v@.subrange(a as int, i as int + 1));
        }
        i += 1;
    }
    r
}

fn fix_piece_exec(p: &Vec<u8>) -> (r: Vec<u8>)
    ensures
        r@ == fix_piece(p@),
{
    let needs_close = p.len() == 0 || p[p.len() - 1] != CLOSE_BRACE;
    let needs_open = p.len() == 0 || p[0] != OPEN_BRACE;
    let mut r: Vec<u8> = Vec::new();
    if needs_open {
        r.push(OPEN_BRACE);
    }
    let mut i: usize = 0;
    while i < p.len()
        invariant
            i <= p.len(),
            needs_open ==> r@ =~= seq![OPEN_BRACE] + p@.subrange(0, i as int),
            !needs_open ==> r@ =~= p@.subrange(0, i as int),
        decreases p.len() - i,
    {
        r.push(p[i]);
        i += 1;
    }
    if needs_close {
        r.push(CLOSE_BRACE);
    }
    proof {
        assert(r@ =~= fix_piece(p@));
    }
    r
}

/// Splits a raw chunk into the records it coalesces, per
/// [`split_packets_spec`].
pub fn split_packets(chunk: &[u8]) -> (r: Vec<Vec<u8>>)
    ensures
        r.deep_view() == split_packets_spec(chunk@),
{
    let ghost s = chunk@;
    let mut raw: Vec<Vec<u8>> = Vec::new();
    let mut start: usize = 0;
    let mut i: usize = 0;
    while i < chunk.len() && i + 1 < chunk.len()
        invariant
            0 <= start <= i <= s.len(),
            s == chunk@,
            raw.deep_view() + split_from(s, start as int, i as int) =~~= split_from(s, 0, 0),
        decreases chunk.len() - i,
    {
        let ghost raw0 = raw.deep_view();
        if chunk[i] == CLOSE_BRACE && chunk[i + 1] == OPEN_BRACE {
            let piece = byte_range(chunk, start, i);
            raw.push(piece);
            proof {
                assert(raw.deep_view() =~~= raw0.push(s.subrange(start as int, i as int)));
                assert(raw.deep_view() + split_from(s, i as int + 2, i as int + 2) =~~= split_from(
                    s,
                    0,
                    0,
                ));
            }
            start = i + 2;
            i = i + 2;
        } else {
            i += 1;
        }
    }
    let ghost raw0 = raw.deep_view();
    let tail = byte_range(chunk, start, chunk.len());
    raw.push(tail);
    proof {
        assert(split_from(s, start as int, i as int) =~= seq![
            s.subrange(start as int, s.len() as int),
        ]);
        assert(raw.deep_view() =~~= raw0.push(s.subrange(start as int, s.len() as int)));
        assert(raw.deep_view() =~~= split_from(s, 0, 0));
    }
    let ghost pieces = split_from(s, 0, 0);
    let mut out: Vec<Vec<u8>> = Vec::new();
    let mut j: usize = 0;
    while j < raw.len()
        invariant
            j <= raw.len(),
            raw.deep_view() == pieces,
            pieces == split_from(s, 0, 0),
            out.deep_view() =~~= pieces.subrange(0, j as int).map_values(
                |p: Seq<u8>| fix_piece(p),
            ),
        decreases raw.len() - j,
    {
        let ghost out0 = out.deep_view();
        let fixed = fix_piece_exec(&raw[j]);
        out.push(fixed);
        proof {
            assert(out.deep_view() =~~= out0.push(fix_piece(pieces[j as int])));
            assert(out.deep_view() =~~= pieces.subrange(0, j as int + 1).map_values(
                |p: Seq<u8>| fix_piece(p),
            ));
        }
        j += 1;
    }
    proof {
        assert(pieces.subrange(0, pieces.len() as int) =~= pieces);
        assert(out.deep_view() =~~= split_packets_spec(s));
    }
    out
}

proof fn lemma_split_skips(s: Seq<u8>, start: int, i: int, k: int)
    requires
        0 <= start <= i <= k,
        k + 1 < s.len(),
        s[k] == CLOSE_BRACE && s[k + 1] == OPEN_BRACE,
        forall|j: int| i <= j < k ==> !(#[trigger] s[j] == CLOSE_BRACE && s[j + 1] == OPEN_BRACE),
    ensures
        split_from(s, start, i) == seq![s.subrange(start, k)] + split_from(s, k + 2, k + 2),
    decreases k - i,
{
    if i < k {
        lemma_split_skips(s, start, i + 1, k);
    }
}

proof fn lemma_split_clean(s: Seq<u8>, start: int, i: int)
    requires
        0 <= start <= i <= s.len(),
        forall|j: int| i <= j < s.len() - 1 ==> !(#[trigger] s[j] == CLOSE_BRACE && s[j + 1] == OPEN_BRACE),
    ensures
        split_from(s, start, i) == seq![s.subrange(start, s.len() as int)],
    decreases s.len() - i,
{
    if i + 1 < s.len() {
        lemma_split_clean(s, start, i + 1);
    }
}

/// Framing law: two well-framed records written back to back are parsed
/// back into exactly those two records, provided the byte before the first
/// record's closing brace is not itself a closing brace, and the byte after
/// the second record's opening brace is not itself an opening brace (else
/// the re-attachment heuristic misjudges where the braces belong).
pub proof fn lemma_two_records_reconstructed(a: Seq<u8>, b: Seq<u8>)
    requires
        is_record(a),
        is_record(b),
        a.len() == 2 || a[a.len() - 2] != CLOSE_BRACE,
        b.len() == 2 || b[1] != OPEN_BRACE,
    ensures
        split_packets_spec(a + b) == seq![a, b],
{
    let s = a + b;
    let k = a.len() - 1;
    assert(s[k] == a.last());
    assert(s[k + 1] == b[0]);
    assert forall|j: int| 0 <= j < k implies !(#[trigger] s[j] == CLOSE_BRACE && s[j + 1] == OPEN_BRACE) by {
        assert(s[j] == a[j]);
        assert(s[j + 1] == a[j + 1]);
    }
    assert forall|j: int|
        k + 2 <= j < s.len() - 1 implies !(#[trigger] s[j] == CLOSE_BRACE && s[j + 1] == OPEN_BRACE) by {
        assert(s[j] == b[j - a.len()]);
        assert(s[j + 1] == b[j + 1 - a.len()]);
    }
    assert(!(s[k + 1] == CLOSE_BRACE && s[k + 2] == OPEN_BRACE));
    lemma_split_skips(s, 0, 0, k);
    lemma_split_clean(s, k + 2, k + 2);
    let piece_a = s.subrange(0, k);
    let piece_b = s.subrange(k + 2, s.len() as int);
    assert(split_from(s, 0, 0) =~= seq![piece_a, piece_b]);
    assert(piece_a =~= a.subrange(0, k));
    assert(piece_b =~= b.subrange(1, b.len() as int));
    // The first piece is the first record without its closing brace.
    assert(piece_a.len() == k);
    assert(k >= 1);
    assert(piece_a[0] == a[0]);
    if a.len() == 2 {
        assert(piece_a.last() == a[0]);
        assert(a[0] != CLOSE_BRACE);
    } else {
        assert(piece_a.last() == a[a.len() - 2]);
    }
    assert(fix_piece(piece_a) =~= a);
    // The second piece is the second record without its opening brace.
    assert(piece_b.len() == b.len() - 1);
    assert(piece_b.len() >= 1);
    assert(piece_b.last() == b.last());
    if b.len() == 2 {
        assert(piece_b[0] == b.last());
        assert(b.last() != OPEN_BRACE);
    } else {
        assert(piece_b[0] == b[1]);
    }
    assert(fix_piece(piece_b) =~= b);
    assert(split_packets_spec(s) =~= seq![a, b]);
}

} // verus!
