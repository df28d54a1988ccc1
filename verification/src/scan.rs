//! Mathematical model of the head-tag scan.
//!
//! The injector looks for the first opening `<head ...>` tag of the input and
//! splices the script block in immediately after that tag's closing `>`. The
//! scan is byte-oriented: the tag opens where the bytes `<head` occur and the
//! byte after them does not continue a tag name (so `<header>` does not
//! match), and it closes at the first `>` from there on. Attribute values
//! that themselves contain `>` are a documented limitation: the tag is taken
//! to close at the first `>`.

use vstd::prelude::*;

verus! {

/// The byte pattern that opens a `head` tag: `<head`.
pub open spec fn head_pattern() -> Seq<u8> {
    seq![60u8, 104u8, 101u8, 97u8, 100u8]
}

/// True of bytes that may continue a tag name (ASCII digits, letters, `-`).
/// A `<head` occurrence followed by such a byte opens some longer tag, such
/// as `<header`, and must not trigger an injection.
pub open spec fn is_name_byte(b: u8) -> bool {
    (48 <= b <= 57) || (65 <= b <= 90) || (97 <= b <= 122) || b == 45
}

/// The bytes of `s` seen so far are consistent with a `head` opening tag
/// starting at position `i`: every visible byte of the pattern matches, and
/// where the byte right after the pattern is visible it does not continue
/// the tag name.
pub open spec fn live(s: Seq<u8>, i: int) -> bool {
    &&& 0 <= i
    &&& forall|k: int| i <= k < s.len() && k < i + 5 ==> s[k] == head_pattern()[k - i]
    &&& i + 5 < s.len() ==> !is_name_byte(s[i + 5])
}

/// A `head` opening tag starts at position `i` of `s`: the whole pattern is
/// visible and not refuted by the byte after it.
pub open spec fn head_match_at(s: Seq<u8>, i: int) -> bool {
    live(s, i) && i + 5 <= s.len()
}

/// The first `head` opening tag of `s` starts at `i`, and `j` is the
/// position of its closing `>`: the first `>` at or after the end of the
/// `<head` pattern.
pub open spec fn complete_head_tag(s: Seq<u8>, i: int, j: int) -> bool {
    &&& head_match_at(s, i)
    &&& i + 5 <= j < s.len()
    &&& s[j] == 62
    &&& forall|k: int| i + 5 <= k < j ==> s[k] != 62
    &&& forall|i2: int| 0 <= i2 < i ==> !head_match_at(s, i2)
}

/// `s` holds a complete first `head` opening tag, so injection takes place.
pub open spec fn injects(s: Seq<u8>) -> bool {
    exists|i: int, j: int| complete_head_tag(s, i, j)
}

/// What the injector emits for the whole input `s`: `s` itself when no
/// complete `head` opening tag occurs anywhere, else `s` with `script`
/// spliced in immediately after the closing `>` of the first such tag, with
/// no other byte altered.
pub open spec fn injected_output(s: Seq<u8>, script: Seq<u8>) -> Seq<u8> {
    if injects(s) {
        let (i, j) = choose|i: int, j: int| complete_head_tag(s, i, j);
        s.subrange(0, j + 1) + script + s.subrange(j + 1, s.len() as int)
    } else {
        s
    }
}

/// A position refuted by the bytes seen so far stays refuted as more bytes
/// arrive.
pub proof fn lemma_live_push(s: Seq<u8>, b: u8, i: int)
    requires
        live(s.push(b), i),
    ensures
        live(s, i),
{
    let t = s.push(b);
    assert forall|k: int| i <= k < s.len() && k < i + 5 implies s[k] == head_pattern()[k - i] by {
        assert(t[k] == s[k]);
    }
    if i + 5 < s.len() {
        assert(t[i + 5] == s[i + 5]);
    }
}

/// A confirmed `head` tag start survives the arrival of a further byte,
/// provided the byte right after the pattern is already visible or the new
/// byte does not continue the tag name.
pub proof fn lemma_match_extend(s: Seq<u8>, b: u8, i: int)
    requires
        head_match_at(s, i),
        i + 5 < s.len() || !is_name_byte(b),
    ensures
        head_match_at(s.push(b), i),
{
    let t = s.push(b);
    assert forall|k: int| i <= k < t.len() && k < i + 5 implies t[k] == head_pattern()[k - i] by {
        assert(t[k] == s[k]);
    }
    if i + 5 < t.len() {
        if i + 5 < s.len() {
            assert(t[i + 5] == s[i + 5]);
        } else {
            assert(t[i + 5] == b);
        }
    }
}

/// Every byte of the pattern but the first differs from `<`.
pub proof fn lemma_pattern_interior(t: int)
    requires
        1 <= t < 5,
    ensures
        head_pattern()[t] != 60,
{
}

/// A position whose byte is not `<` cannot start a `head` tag.
pub proof fn lemma_not_open_dead(s: Seq<u8>, i: int)
    requires
        0 <= i < s.len(),
        s[i] != 60,
    ensures
        !live(s, i),
{
    assert(head_pattern()[0] == 60);
}

/// At most one pair of positions marks the first complete `head` tag.
pub proof fn lemma_complete_unique(s: Seq<u8>, i1: int, j1: int, i2: int, j2: int)
    requires
        complete_head_tag(s, i1, j1),
        complete_head_tag(s, i2, j2),
    ensures
        i1 == i2,
        j1 == j2,
{
    if i1 < i2 {
        assert(head_match_at(s, i1));
        assert(!head_match_at(s, i1));
    }
    if i2 < i1 {
        assert(head_match_at(s, i2));
        assert(!head_match_at(s, i2));
    }
    if j1 < j2 {
        assert(s[j1] == 62);
        assert(s[j1] != 62);
    }
    if j2 < j1 {
        assert(s[j2] == 62);
        assert(s[j2] != 62);
    }
}

/// With the first complete `head` tag pinned down at `(i, j)`, the output is
/// the input with the script spliced in right after position `j`.
pub proof fn lemma_injected_output_at(s: Seq<u8>, script: Seq<u8>, i: int, j: int)
    requires
        complete_head_tag(s, i, j),
    ensures
        injected_output(s, script) == s.subrange(0, j + 1) + script + s.subrange(
            j + 1,
            s.len() as int,
        ),
{
    assert(injects(s));
    let (ci, cj) = choose|ci: int, cj: int| complete_head_tag(s, ci, cj);
    lemma_complete_unique(s, i, j, ci, cj);
}

/// Law: when injection takes place the output is longer than the input by
/// exactly the script block, else it is the input; its length is therefore
/// not predictable from the input's length alone.
pub proof fn lemma_injected_output_len(s: Seq<u8>, script: Seq<u8>)
    ensures
        injects(s) ==> injected_output(s, script).len() == s.len() + script.len(),
        !injects(s) ==> injected_output(s, script) == s,
{
}

/// The pattern `<head` occurs at position `i` of `s`.
pub open spec fn head_bytes_at(s: Seq<u8>, i: int) -> bool {
    0 <= i && i + 5 <= s.len() && s.subrange(i, i + 5) == head_pattern()
}

/// Law: an input in which the bytes `<head` occur nowhere passes through
/// unchanged, whatever the script block is.
pub proof fn lemma_no_head_bytes_unchanged(s: Seq<u8>, script: Seq<u8>)
    requires
        forall|i: int| !head_bytes_at(s, i),
    ensures
        injected_output(s, script) == s,
{
    if injects(s) {
        let (i, j) = choose|i: int, j: int| complete_head_tag(s, i, j);
        assert(s.subrange(i, i + 5) =~= head_pattern());
        assert(head_bytes_at(s, i));
    }
}

} // verus!
