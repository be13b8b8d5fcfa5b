//! The bytes a paste sends to the PTY: line endings normalized to carriage
//! returns, and for a bracketed paste the text wrapped in the bracket
//! markers with each end marker inside it removed.

use vstd::prelude::*;
use vstd::string::StringSliceAdditionalSpecFns;

verus! {

/// `CR LF` and lone `LF` both become `CR`.
pub open spec fn normalize_newlines(b: Seq<u8>) -> Seq<u8>
    decreases b.len(),
{
    if b.len() == 0 {
        Seq::empty()
    } else if b[0] == 0x0d && b.len() >= 2 && b[1] == 0x0a {
        seq![0x0du8] + normalize_newlines(b.skip(2))
    } else if b[0] == 0x0a {
        seq![0x0du8] + normalize_newlines(b.skip(1))
    } else {
        seq![b[0]] + normalize_newlines(b.skip(1))
    }
}

/// The bracketed-paste end marker, `ESC [ 2 0 1 ~`.
pub open spec fn paste_end() -> Seq<u8> {
    seq![0x1bu8, 0x5bu8, 0x32u8, 0x30u8, 0x31u8, 0x7eu8]
}

/// The bracketed-paste start marker, `ESC [ 2 0 0 ~`.
pub open spec fn paste_start() -> Seq<u8> {
    seq![0x1bu8, 0x5bu8, 0x32u8, 0x30u8, 0x30u8, 0x7eu8]
}

/// `b` with each end marker removed, scanning left to right.
pub open spec fn strip_end_markers(b: Seq<u8>) -> Seq<u8>
    decreases b.len(),
{
    if b.len() == 0 {
        Seq::empty()
    } else if b.len() >= 6 && b.take(6) == paste_end() {
        strip_end_markers(b.skip(6))
    } else {
        seq![b[0]] + strip_end_markers(b.skip(1))
    }
}

/// What a paste of `text` (its UTF-8 bytes) sends; nothing for empty text.
pub open spec fn paste_spec(text: Seq<u8>, bracketed: bool) -> Option<Seq<u8>> {
    if text.len() == 0 {
        None
    } else if bracketed {
        Some(paste_start() + strip_end_markers(normalize_newlines(text)) + paste_end())
    } else {
        Some(normalize_newlines(text))
    }
}

fn normalize(b: &[u8]) -> (r: Vec<u8>)
    ensures
        r@ == normalize_newlines(b@),
{
    let mut out: Vec<u8> = Vec::new();
    let mut i: usize = 0;
    assert(b@.skip(0) =~= b@);
    assert(out@ + normalize_newlines(b@) =~= normalize_newlines(b@));
    while i < b.len()
        invariant
            i <= b@.len(),
            out@ + normalize_newlines(b@.skip(i as int)) == normalize_newlines(b@),
        decreases b@.len() - i,
    {
        let ghost rest = b@.skip(i as int);
        if b[i] == 0x0d && i + 1 < b.len() && b[i + 1] == 0x0a {
            out.push(0x0d);
            assert(rest.skip(2) =~= b@.skip(i + 2));
            assert(out@ + normalize_newlines(b@.skip(i + 2)) =~= normalize_newlines(b@));
            i = i + 2;
        } else {
            out.push(if b[i] == 0x0a {
                0x0d
            } else {
                b[i]
            });
            assert(rest.skip(1) =~= b@.skip(i + 1));
            assert(out@ + normalize_newlines(b@.skip(i + 1)) =~= normalize_newlines(b@));
            i = i + 1;
        }
    }
    assert(b@.skip(i as int) =~= Seq::<u8>::empty());
    assert(out@ + Seq::<u8>::empty() =~= out@);
    out
}

fn is_end_marker_at(b: &Vec<u8>, i: usize) -> (r: bool)
    requires
        i <= b@.len(),
    ensures
        r == (b@.skip(i as int).len() >= 6 && b@.skip(i as int).take(6) == paste_end()),
{
    if b.len() - i < 6 {
        return false;
    }
    let r = b[i] == 0x1b && b[i + 1] == 0x5b && b[i + 2] == 0x32 && b[i + 3] == 0x30 && b[i + 4]
        == 0x31 && b[i + 5] == 0x7e;
    if r {
        assert(b@.skip(i as int).take(6) =~= paste_end());
    } else {
        assert(b@.skip(i as int).take(6) != paste_end()) by {
            if b@.skip(i as int).take(6) == paste_end() {
                assert(b@.skip(i as int).take(6)[0] == b@[i as int]);
                assert(b@.skip(i as int).take(6)[1] == b@[i + 1]);
                assert(b@.skip(i as int).take(6)[2] == b@[i + 2]);
                assert(b@.skip(i as int).take(6)[3] == b@[i + 3]);
                assert(b@.skip(i as int).take(6)[4] == b@[i + 4]);
                assert(b@.skip(i as int).take(6)[5] == b@[i + 5]);
            }
        }
    }
    r
}

fn strip(b: &Vec<u8>, out: &mut Vec<u8>)
    ensures
        final(out)@ == old(out)@ + strip_end_markers(b@),
{
    let mut i: usize = 0;
    assert(b@.skip(0) =~= b@);
    while i < b.len()
        invariant
            i <= b@.len(),
            out@ + strip_end_markers(b@.skip(i as int)) == old(out)@ + strip_end_markers(b@),
        decreases b@.len() - i,
    {
        let ghost rest = b@.skip(i as int);
        if is_end_marker_at(b, i) {
            assert(rest.skip(6) =~= b@.skip(i + 6));
            i = i + 6;
        } else {
            out.push(b[i]);
            assert(rest.skip(1) =~= b@.skip(i + 1));
            assert(out@ + strip_end_markers(b@.skip(i + 1)) =~= old(out)@ + strip_end_markers(b@));
            i = i + 1;
        }
    }
    assert(b@.skip(i as int) =~= Seq::<u8>::empty());
    assert(out@ + Seq::<u8>::empty() =~= out@);
}

/// Whether an end marker begins at `i` in `b`.
pub open spec fn end_marker_at(b: Seq<u8>, i: int) -> bool {
    0 <= i && i + 6 <= b.len() && b.subrange(i, i + 6) == paste_end()
}

proof fn lemma_strip_leaves_no_escape(b: Seq<u8>)
    requires
        forall|j: int| 0 <= j < b.len() && b[j] == 0x1bu8 ==> end_marker_at(b, j),
    ensures
        forall|k: int| 0 <= k < strip_end_markers(b).len() ==> strip_end_markers(b)[k] != 0x1bu8,
    decreases b.len(),
{
    if b.len() == 0 {
    } else if b.len() >= 6 && b.take(6) == paste_end() {
        let r = b.skip(6);
        assert forall|j: int| 0 <= j < r.len() && r[j] == 0x1bu8 implies end_marker_at(r, j) by {
            assert(b[j + 6] == 0x1bu8);
            assert(end_marker_at(b, j + 6));
            assert(r.subrange(j, j + 6) =~= b.subrange(j + 6, j + 12));
        }
        lemma_strip_leaves_no_escape(r);
        assert(strip_end_markers(b) == strip_end_markers(r));
    } else {
        let r = b.skip(1);
        if b[0] == 0x1bu8 {
            assert(end_marker_at(b, 0));
            assert(b.take(6) =~= b.subrange(0, 6));
        }
        assert forall|j: int| 0 <= j < r.len() && r[j] == 0x1bu8 implies end_marker_at(r, j) by {
            assert(b[j + 1] == 0x1bu8);
            assert(end_marker_at(b, j + 1));
            assert(r.subrange(j, j + 6) =~= b.subrange(j + 1, j + 7));
        }
        lemma_strip_leaves_no_escape(r);
        let t = strip_end_markers(b);
        assert(t == seq![b[0]] + strip_end_markers(r));
        assert forall|k: int| 0 <= k < t.len() implies t[k] != 0x1bu8 by {
            if k > 0 {
                assert(t[k] == strip_end_markers(r)[k - 1]);
            }
        }
    }
}

/// A paste cannot close the bracket early: when every escape in the
/// (newline-normalized) text begins an end marker, as in text with no
/// escapes at all, the bracketed payload holds an end marker only at its
/// very end.
pub proof fn lemma_paste_closes_only_at_end(text: Seq<u8>)
    requires
        text.len() > 0,
    ensures
        ({
            let n = normalize_newlines(text);
            let p = paste_spec(text, true).unwrap();
            (forall|j: int| 0 <= j < n.len() && n[j] == 0x1bu8 ==> end_marker_at(n, j)) ==> (
            forall|i: int| 0 <= i < p.len() - 6 ==> !end_marker_at(p, i))
        }),
{
    let n = normalize_newlines(text);
    let s = strip_end_markers(n);
    let p = paste_spec(text, true).unwrap();
    if forall|j: int| 0 <= j < n.len() && n[j] == 0x1bu8 ==> end_marker_at(n, j) {
        lemma_strip_leaves_no_escape(n);
        assert(p == paste_start() + s + paste_end());
        assert forall|i: int| 0 <= i < p.len() - 6 implies !end_marker_at(p, i) by {
            if end_marker_at(p, i) {
                assert(p.subrange(i, i + 6)[0] == p[i]);
                assert(p[i] == 0x1bu8);
                if i == 0 {
                    assert(p.subrange(0, 6)[4] == p[4]);
                    assert(p[4] == 0x30u8);
                } else if i < 6 {
                    assert(p[i] == paste_start()[i]);
                } else {
                    assert(p[i] == s[i - 6]);
                }
            }
        }
    }
}

/// The bytes a paste of `text` sends to the PTY, or `None` for empty text.
pub fn paste_payload(text: &str, bracketed: bool) -> (r: Option<Vec<u8>>)
    ensures
        match r {
            Some(v) => paste_spec(text.spec_bytes(), bracketed) == Some(v@),
            None => paste_spec(text.spec_bytes(), bracketed) is None,
        },
{
    let bytes = text.as_bytes();
    if bytes.len() == 0 {
        return None;
    }
    let body = normalize(bytes);
    if !bracketed {
        return Some(body);
    }
    let mut out: Vec<u8> = Vec::new();
    out.push(0x1b);
    out.push(0x5b);
    out.push(0x32);
    out.push(0x30);
    out.push(0x30);
    out.push(0x7e);
    assert(out@ =~= paste_start());
    strip(&body, &mut out);
    let ghost before_end = out@;
    out.push(0x1b);
    out.push(0x5b);
    out.push(0x32);
    out.push(0x30);
    out.push(0x31);
    out.push(0x7e);
    assert(out@ =~= before_end + paste_end());
    Some(out)
}

} // verus!
