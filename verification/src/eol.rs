//! Byte-level model of line endings, the byte-order mark and the newline
//! re-emission rules, with the lemmas that relate them.
//!
//! Everything here is a specification over `Seq<u8>`; the executable code in
//! `document` and `fileio` is proved against these definitions.

use vstd::prelude::*;
use vstd::utf8::*;

verus! {

broadcast use vstd::seq_lib::group_seq_properties;

/// The carriage-return byte `\r`.
pub open spec fn cr() -> u8 {
    13u8
}

/// The line-feed byte `\n`.
pub open spec fn lf() -> u8 {
    10u8
}

/// The UTF-8 encoding of U+FEFF, the byte-order mark (`EF BB BF`).
pub open spec fn bom_bytes() -> Seq<u8> {
    seq![0xEFu8, 0xBBu8, 0xBFu8]
}

/// `true` when `s` begins with the UTF-8 byte-order mark.
pub open spec fn starts_with_bom(s: Seq<u8>) -> bool {
    s.len() >= 3 && s[0] == 0xEFu8 && s[1] == 0xBBu8 && s[2] == 0xBFu8
}

/// `s` without a leading byte-order mark (unchanged when it has none).
pub open spec fn strip_bom(s: Seq<u8>) -> Seq<u8> {
    if starts_with_bom(s) {
        s.skip(3)
    } else {
        s
    }
}

/// `true` when `s` ends with a line feed.
pub open spec fn ends_with_lf(s: Seq<u8>) -> bool {
    s.len() > 0 && s.last() == lf()
}

/// Index `i` of `s` holds the `\n` of a `\r\n` pair.
pub open spec fn is_crlf_at(s: Seq<u8>, i: int) -> bool {
    0 < i < s.len() && s[i] == lf() && s[i - 1] == cr()
}

/// Index `i` of `s` holds a `\n` that is not preceded by `\r`.
pub open spec fn is_lone_lf_at(s: Seq<u8>, i: int) -> bool {
    0 <= i < s.len() && s[i] == lf() && (i == 0 || s[i - 1] != cr())
}

/// The number of `\r\n` pairs in `s`.
pub open spec fn crlf_count(s: Seq<u8>) -> nat
    decreases s.len(),
{
    if s.len() == 0 {
        0
    } else {
        crlf_count(s.drop_last()) + if is_crlf_at(s, s.len() - 1) {
            1nat
        } else {
            0nat
        }
    }
}

/// The number of `\n` bytes in `s` not preceded by `\r`.
pub open spec fn lone_lf_count(s: Seq<u8>) -> nat
    decreases s.len(),
{
    if s.len() == 0 {
        0
    } else {
        lone_lf_count(s.drop_last()) + if is_lone_lf_at(s, s.len() - 1) {
            1nat
        } else {
            0nat
        }
    }
}

/// Every `\r` in `s` is immediately followed by `\n`.
pub open spec fn no_lone_cr(s: Seq<u8>) -> bool {
    forall|i: int| 0 <= i < s.len() && #[trigger] s[i] == cr() ==> i + 1 < s.len() && s[i + 1] == lf()
}

/// `s` contains no `\r` at all.
pub open spec fn no_cr(s: Seq<u8>) -> bool {
    forall|i: int| 0 <= i < s.len() ==> #[trigger] s[i] != cr()
}

/// `s` contains no `\n` at all.
pub open spec fn no_lf(s: Seq<u8>) -> bool {
    forall|i: int| 0 <= i < s.len() ==> #[trigger] s[i] != lf()
}

/// Every `\n` in `s` is immediately preceded by `\r`.
pub open spec fn every_lf_after_cr(s: Seq<u8>) -> bool {
    forall|i: int| 0 <= i < s.len() && #[trigger] s[i] == lf() ==> i > 0 && s[i - 1] == cr()
}

/// Collapse every `\r\n` to `\n`, then turn every remaining lone `\r` into `\n`.
pub open spec fn normalise_lf(s: Seq<u8>) -> Seq<u8>
    decreases s.len(),
{
    if s.len() == 0 {
        seq![]
    } else if s[0] == cr() && s.len() >= 2 && s[1] == lf() {
        seq![lf()] + normalise_lf(s.skip(2))
    } else if s[0] == cr() {
        seq![lf()] + normalise_lf(s.skip(1))
    } else {
        seq![s[0]] + normalise_lf(s.skip(1))
    }
}

/// Replace every `\n` of `s` by `\r\n`.
pub open spec fn expand_crlf(s: Seq<u8>) -> Seq<u8>
    decreases s.len(),
{
    if s.len() == 0 {
        seq![]
    } else if s[0] == lf() {
        seq![cr(), lf()] + expand_crlf(s.skip(1))
    } else {
        seq![s[0]] + expand_crlf(s.skip(1))
    }
}

// ---------------------------------------------------------------------------
// Counting lemmas

/// With no `\r\n` pair counted, no index holds one.
pub proof fn lemma_crlf_count_zero(s: Seq<u8>)
    requires
        crlf_count(s) == 0,
    ensures
        forall|i: int| !#[trigger] is_crlf_at(s, i),
    decreases s.len(),
{
    if s.len() > 0 {
        let t = s.drop_last();
        lemma_crlf_count_zero(t);
        assert forall|i: int| !#[trigger] is_crlf_at(s, i) by {
            if 0 < i < s.len() - 1 {
                assert(!is_crlf_at(t, i));
            }
        }
    }
}

/// With no lone `\n` counted, every `\n` follows a `\r`.
pub proof fn lemma_lone_lf_count_zero(s: Seq<u8>)
    requires
        lone_lf_count(s) == 0,
    ensures
        every_lf_after_cr(s),
    decreases s.len(),
{
    if s.len() > 0 {
        let t = s.drop_last();
        lemma_lone_lf_count_zero(t);
        assert forall|i: int| 0 <= i < s.len() && #[trigger] s[i] == lf() implies i > 0 && s[i
            - 1] == cr() by {
            if i < s.len() - 1 {
                assert(t[i] == lf());
            } else {
                assert(!is_lone_lf_at(s, s.len() - 1));
            }
        }
    }
}

/// A sequence without `\r` has no `\r\n` pair and is fixed by normalisation.
pub proof fn lemma_normalise_no_cr(s: Seq<u8>)
    requires
        no_cr(s),
    ensures
        normalise_lf(s) == s,
    decreases s.len(),
{
    if s.len() > 0 {
        assert(s[0] != cr());
        lemma_normalise_no_cr(s.skip(1));
        assert(seq![s[0]] + s.skip(1) =~= s);
    }
}

/// Normalisation passes a leading run without `\r` through unchanged.
pub proof fn lemma_normalise_prefix_no_cr(x: Seq<u8>, y: Seq<u8>)
    requires
        no_cr(x),
    ensures
        normalise_lf(x + y) == x + normalise_lf(y),
    decreases x.len(),
{
    if x.len() > 0 {
        assert(x[0] != cr());
        assert((x + y)[0] == x[0]);
        assert((x + y).skip(1) =~= x.skip(1) + y);
        lemma_normalise_prefix_no_cr(x.skip(1), y);
        assert(seq![x[0]] + (x.skip(1) + normalise_lf(y)) =~= x + normalise_lf(y));
    } else {
        assert(x + y =~= y);
    }
}

/// `\r\n` expansion distributes over concatenation.
pub proof fn lemma_expand_concat(a: Seq<u8>, b: Seq<u8>)
    ensures
        expand_crlf(a + b) == expand_crlf(a) + expand_crlf(b),
    decreases a.len(),
{
    if a.len() > 0 {
        assert((a + b)[0] == a[0]);
        assert((a + b).skip(1) =~= a.skip(1) + b);
        lemma_expand_concat(a.skip(1), b);
        if a[0] == lf() {
            assert(seq![cr(), lf()] + (expand_crlf(a.skip(1)) + expand_crlf(b)) =~= (seq![
                cr(),
                lf(),
            ] + expand_crlf(a.skip(1))) + expand_crlf(b));
        } else {
            assert(seq![a[0]] + (expand_crlf(a.skip(1)) + expand_crlf(b)) =~= (seq![a[0]]
                + expand_crlf(a.skip(1))) + expand_crlf(b));
        }
    } else {
        assert(a + b =~= b);
        assert(expand_crlf(a) + expand_crlf(b) =~= expand_crlf(b));
    }
}

/// A sequence without `\n` is fixed by `\r\n` expansion.
pub proof fn lemma_expand_no_lf(x: Seq<u8>)
    requires
        no_lf(x),
    ensures
        expand_crlf(x) == x,
    decreases x.len(),
{
    if x.len() > 0 {
        assert(x[0] != lf());
        lemma_expand_no_lf(x.skip(1));
        assert(seq![x[0]] + x.skip(1) =~= x);
    }
}

/// The last byte of a normalised sequence: `\n` for a trailing `\r`, otherwise
/// the last byte of `s`; the empty sequence normalises to itself.
pub proof fn lemma_normalise_last(s: Seq<u8>)
    ensures
        s.len() == 0 ==> normalise_lf(s).len() == 0,
        s.len() > 0 ==> normalise_lf(s).len() > 0 && normalise_lf(s).last() == (if s.last()
            == cr() {
            lf()
        } else {
            s.last()
        }),
    decreases s.len(),
{
    if s.len() > 0 {
        if s[0] == cr() && s.len() >= 2 && s[1] == lf() {
            lemma_normalise_last(s.skip(2));
            if s.len() > 2 {
                assert(s.skip(2).last() == s.last());
            }
        } else {
            lemma_normalise_last(s.skip(1));
            if s.len() > 1 {
                assert(s.skip(1).last() == s.last());
            }
        }
    }
}

/// Expansion of a single byte.
pub proof fn lemma_expand_single(b: u8)
    ensures
        expand_crlf(seq![b]) == (if b == lf() {
            seq![cr(), lf()]
        } else {
            seq![b]
        }),
{
    let e = Seq::<u8>::empty();
    assert(seq![b].skip(1) =~= e);
    assert(expand_crlf(e) == e);
    assert(seq![cr(), lf()] + e =~= seq![cr(), lf()]);
    assert(seq![b] + e =~= seq![b]);
}

/// When `\r` and `\n` only ever occur as `\r\n` pairs, normalising and then
/// expanding gives the same bytes back.
pub proof fn lemma_expand_normalise(s: Seq<u8>)
    requires
        no_lone_cr(s),
        every_lf_after_cr(s),
    ensures
        expand_crlf(normalise_lf(s)) == s,
    decreases s.len(),
{
    if s.len() > 0 {
        if s[0] == cr() {
            assert(s[1] == lf());
            let t = s.skip(2);
            assert forall|i: int| 0 <= i < t.len() && #[trigger] t[i] == cr() implies i + 1
                < t.len() && t[i + 1] == lf() by {
                assert(s[i + 2] == cr());
            }
            assert forall|i: int| 0 <= i < t.len() && #[trigger] t[i] == lf() implies i > 0 && t[i
                - 1] == cr() by {
                assert(s[i + 2] == lf());
            }
            lemma_expand_normalise(t);
            lemma_expand_concat(seq![lf()], normalise_lf(t));
            lemma_expand_single(lf());
            assert(seq![cr(), lf()] + t =~= s);
        } else {
            assert(s[0] != lf());
            let t = s.skip(1);
            assert forall|i: int| 0 <= i < t.len() && #[trigger] t[i] == cr() implies i + 1
                < t.len() && t[i + 1] == lf() by {
                assert(s[i + 1] == cr());
            }
            assert forall|i: int| 0 <= i < t.len() && #[trigger] t[i] == lf() implies i > 0 && t[i
                - 1] == cr() by {
                assert(s[i + 1] == lf());
            }
            lemma_expand_normalise(t);
            lemma_expand_concat(seq![s[0]], normalise_lf(t));
            lemma_expand_single(s[0]);
            assert(seq![s[0]] + t =~= s);
        }
    }
}

/// Without `\r` there is no `\r\n` pair to count.
pub proof fn lemma_no_cr_crlf_count(s: Seq<u8>)
    requires
        no_cr(s),
    ensures
        crlf_count(s) == 0,
    decreases s.len(),
{
    if s.len() > 0 {
        lemma_no_cr_crlf_count(s.drop_last());
        if s.len() >= 2 {
            assert(s[s.len() - 2] != cr());
        }
    }
}

/// When every `\n` follows a `\r`, no lone `\n` is counted.
pub proof fn lemma_lf_after_cr_lone_count(s: Seq<u8>)
    requires
        every_lf_after_cr(s),
    ensures
        lone_lf_count(s) == 0,
    decreases s.len(),
{
    if s.len() > 0 {
        let t = s.drop_last();
        assert forall|i: int| 0 <= i < t.len() && #[trigger] t[i] == lf() implies i > 0 && t[i
            - 1] == cr() by {
            assert(s[i] == lf());
        }
        lemma_lf_after_cr_lone_count(t);
        if s.last() == lf() {
            assert(s[s.len() - 1] == lf());
        }
    }
}

/// Normalisation leaves no `\r` behind.
pub proof fn lemma_normalise_has_no_cr(s: Seq<u8>)
    ensures
        no_cr(normalise_lf(s)),
    decreases s.len(),
{
    if s.len() > 0 {
        let k: int = if s[0] == cr() && s.len() >= 2 && s[1] == lf() {
            2
        } else {
            1
        };
        lemma_normalise_has_no_cr(s.skip(k));
        let h = if s[0] == cr() {
            lf()
        } else {
            s[0]
        };
        let n = normalise_lf(s);
        assert(n == seq![h] + normalise_lf(s.skip(k)));
        assert forall|i: int| 0 <= i < n.len() implies #[trigger] n[i] != cr() by {
            if i > 0 {
                assert(n[i] == normalise_lf(s.skip(k))[i - 1]);
            }
        }
    }
}

/// Expanding a sequence without `\r` yields `\r` and `\n` only as `\r\n` pairs.
pub proof fn lemma_expand_pairs(s: Seq<u8>)
    requires
        no_cr(s),
    ensures
        no_lone_cr(expand_crlf(s)),
        every_lf_after_cr(expand_crlf(s)),
    decreases s.len(),
{
    if s.len() > 0 {
        let t = s.skip(1);
        assert forall|i: int| 0 <= i < t.len() implies #[trigger] t[i] != cr() by {
            assert(s[i + 1] != cr());
        }
        lemma_expand_pairs(t);
        let et = expand_crlf(t);
        let x = expand_crlf(s);
        if s[0] == lf() {
            assert(x == seq![cr(), lf()] + et);
            assert forall|i: int| 0 <= i < x.len() && #[trigger] x[i] == cr() implies i + 1 < x.len()
                && x[i + 1] == lf() by {
                if i >= 2 {
                    assert(x[i] == et[i - 2]);
                    assert(x[i + 1] == et[i - 1]);
                }
            }
            assert forall|i: int| 0 <= i < x.len() && #[trigger] x[i] == lf() implies i > 0 && x[i
                - 1] == cr() by {
                if i >= 2 {
                    assert(x[i] == et[i - 2]);
                    if i >= 3 {
                        assert(x[i - 1] == et[i - 3]);
                    } else {
                        assert(et[0] != lf());
                    }
                }
            }
        } else {
            assert(x == seq![s[0]] + et);
            assert forall|i: int| 0 <= i < x.len() && #[trigger] x[i] == cr() implies i + 1 < x.len()
                && x[i + 1] == lf() by {
                if i >= 1 {
                    assert(x[i] == et[i - 1]);
                    assert(x[i + 1] == et[i]);
                }
            }
            assert forall|i: int| 0 <= i < x.len() && #[trigger] x[i] == lf() implies i > 0 && x[i
                - 1] == cr() by {
                if i >= 1 {
                    assert(x[i] == et[i - 1]);
                    if i >= 2 {
                        assert(x[i - 1] == et[i - 2]);
                    } else {
                        assert(et[0] != lf());
                    }
                }
            }
        }
    }
}

// ---------------------------------------------------------------------------
// UTF-8 validity lemmas

/// Prepending an ASCII byte keeps a sequence valid UTF-8.
pub proof fn lemma_valid_ascii_cons(b: u8, s: Seq<u8>)
    requires
        b < 0x80,
        valid_utf8(s),
    ensures
        valid_utf8(seq![b] + s),
{
    let x = seq![b] + s;
    assert(x[0] == b);
    assert((b & 0x7F) <= 0x7F) by (bit_vector);
    assert(valid_first_scalar(x));
    assert(pop_first_scalar(x) =~= s);
}

/// Dropping a leading ASCII byte keeps a sequence valid UTF-8.
pub proof fn lemma_valid_ascii_uncons(s: Seq<u8>)
    requires
        valid_utf8(s),
        s.len() > 0,
        s[0] < 0x80,
    ensures
        valid_utf8(s.skip(1)),
{
    assert(pop_first_scalar(s) =~= s.skip(1));
}

/// A valid sequence whose first byte is not ASCII starts with a multi-byte
/// scalar: all of its bytes are at least `0x80`, and both the scalar and the
/// remainder are valid UTF-8.
pub proof fn lemma_valid_multibyte_head(s: Seq<u8>)
    requires
        valid_utf8(s),
        s.len() > 0,
        s[0] >= 0x80,
    ensures
        2 <= length_of_first_scalar(s) <= s.len(),
        valid_utf8(s.take(length_of_first_scalar(s))),
        valid_utf8(s.skip(length_of_first_scalar(s))),
        forall|i: int| 0 <= i < length_of_first_scalar(s) ==> #[trigger] s[i] >= 0x80,
{
    let k = length_of_first_scalar(s);
    assert(2 <= k <= s.len());
    let h = s.take(k);
    assert(pop_first_scalar(s) =~= s.skip(k));
    assert(h.len() == k);
    assert(h[0] == s[0]);
    assert(h[1] == s[1]);
    assert(k >= 3 ==> h[2] == s[2]);
    assert(k >= 4 ==> h[3] == s[3]);
    assert(valid_first_scalar(h));
    assert(length_of_first_scalar(h) == k);
    assert(pop_first_scalar(h) =~= Seq::<u8>::empty());
    assert(valid_utf8(Seq::<u8>::empty()));
}

/// An ASCII-only sequence of one or two bytes is valid UTF-8.
pub proof fn lemma_valid_ascii_short(s: Seq<u8>)
    requires
        s.len() <= 2,
        forall|i: int| 0 <= i < s.len() ==> #[trigger] s[i] < 0x80,
    ensures
        valid_utf8(s),
{
    let e = Seq::<u8>::empty();
    if s.len() == 1 {
        lemma_valid_ascii_cons(s[0], e);
        assert(seq![s[0]] + e =~= s);
    } else if s.len() == 2 {
        lemma_valid_ascii_cons(s[1], e);
        lemma_valid_ascii_cons(s[0], seq![s[1]] + e);
        assert(seq![s[0]] + (seq![s[1]] + e) =~= s);
    }
}

/// Line-feed normalisation keeps valid UTF-8 valid.
pub proof fn lemma_normalise_valid(s: Seq<u8>)
    requires
        valid_utf8(s),
    ensures
        valid_utf8(normalise_lf(s)),
    decreases s.len(),
{
    if s.len() > 0 {
        if s[0] >= 0x80 {
            lemma_valid_multibyte_head(s);
            let k = length_of_first_scalar(s);
            let h = s.take(k);
            let t = s.skip(k);
            assert(h + t =~= s);
            assert forall|i: int| 0 <= i < h.len() implies #[trigger] h[i] != cr() by {
                assert(s[i] >= 0x80);
            }
            lemma_normalise_prefix_no_cr(h, t);
            lemma_normalise_valid(t);
            valid_utf8_concat(h, normalise_lf(t));
        } else if s[0] == cr() && s.len() >= 2 && s[1] == lf() {
            lemma_valid_ascii_uncons(s);
            lemma_valid_ascii_uncons(s.skip(1));
            assert(s.skip(1).skip(1) =~= s.skip(2));
            lemma_normalise_valid(s.skip(2));
            lemma_valid_ascii_cons(lf(), normalise_lf(s.skip(2)));
        } else {
            lemma_valid_ascii_uncons(s);
            lemma_normalise_valid(s.skip(1));
            if s[0] == cr() {
                lemma_valid_ascii_cons(lf(), normalise_lf(s.skip(1)));
            } else {
                lemma_valid_ascii_cons(s[0], normalise_lf(s.skip(1)));
            }
        }
    }
}

/// `\r\n` expansion keeps valid UTF-8 valid.
pub proof fn lemma_expand_valid(s: Seq<u8>)
    requires
        valid_utf8(s),
    ensures
        valid_utf8(expand_crlf(s)),
    decreases s.len(),
{
    if s.len() > 0 {
        if s[0] >= 0x80 {
            lemma_valid_multibyte_head(s);
            let k = length_of_first_scalar(s);
            let h = s.take(k);
            let t = s.skip(k);
            assert(h + t =~= s);
            assert forall|i: int| 0 <= i < h.len() implies #[trigger] h[i] != lf() by {
                assert(s[i] >= 0x80);
            }
            lemma_expand_no_lf(h);
            lemma_expand_concat(h, t);
            lemma_expand_valid(t);
            valid_utf8_concat(h, expand_crlf(t));
        } else {
            lemma_valid_ascii_uncons(s);
            lemma_expand_valid(s.skip(1));
            if s[0] == lf() {
                lemma_valid_ascii_cons(lf(), expand_crlf(s.skip(1)));
                lemma_valid_ascii_cons(cr(), seq![lf()] + expand_crlf(s.skip(1)));
                assert(seq![cr()] + (seq![lf()] + expand_crlf(s.skip(1))) =~= seq![cr(), lf()]
                    + expand_crlf(s.skip(1)));
            } else {
                lemma_valid_ascii_cons(s[0], expand_crlf(s.skip(1)));
            }
        }
    }
}

/// Dropping a trailing `\n` keeps valid UTF-8 valid.
pub proof fn lemma_valid_drop_trailing_lf(s: Seq<u8>)
    requires
        valid_utf8(s),
        ends_with_lf(s),
    ensures
        valid_utf8(s.drop_last()),
{
    let i = s.len() - 1;
    assert(!is_continuation_byte(s[i]));
    is_char_boundary_iff_not_is_continuation_byte(s, i);
    valid_utf8_split(s, i);
    assert(s.subrange(0, i) =~= s.drop_last());
}

/// The byte-order mark is a valid UTF-8 encoding (of U+FEFF).
pub proof fn lemma_bom_valid()
    ensures
        valid_utf8(bom_bytes()),
{
    let b = bom_bytes();
    assert(codepoint_width_3(0xEFu8, 0xBBu8, 0xBFu8) == 0xFEFFu32) by (bit_vector);
    assert(b[0] == 0xEFu8 && b[1] == 0xBBu8 && b[2] == 0xBFu8);
    assert(decode_first_codepoint(b) == 0xFEFFu32);
    assert(valid_first_scalar(b));
    assert(pop_first_scalar(b) =~= Seq::<u8>::empty());
    assert(valid_utf8(Seq::<u8>::empty()));
}

// ---------------------------------------------------------------------------
// Line breaks and text content

/// The number of occurrences of the byte `b` in `s`.
pub open spec fn count_byte(s: Seq<u8>, b: u8) -> nat
    decreases s.len(),
{
    if s.len() == 0 {
        0
    } else {
        count_byte(s.drop_last(), b) + if s.last() == b {
            1nat
        } else {
            0nat
        }
    }
}

/// `s` with every `\r` and `\n` byte removed: the text between line breaks.
pub open spec fn text_bytes(s: Seq<u8>) -> Seq<u8>
    decreases s.len(),
{
    if s.len() == 0 {
        seq![]
    } else if s.last() == cr() || s.last() == lf() {
        text_bytes(s.drop_last())
    } else {
        text_bytes(s.drop_last()).push(s.last())
    }
}

/// The number of line breaks in `s`: each `\r\n` pair, each lone `\n` and
/// each `\r` not followed by `\n` counts once.
pub open spec fn line_break_count(s: Seq<u8>) -> int {
    count_byte(s, lf()) + count_byte(s, cr()) - crlf_count(s)
}

/// `s` ends in a line break (`\n`, or a trailing `\r`).
pub open spec fn ends_in_line_break(s: Seq<u8>) -> bool {
    s.len() > 0 && (s.last() == lf() || s.last() == cr())
}

/// Byte counts add up over concatenation.
pub proof fn lemma_count_byte_concat(a: Seq<u8>, c: Seq<u8>, b: u8)
    ensures
        count_byte(a + c, b) == count_byte(a, b) + count_byte(c, b),
    decreases c.len(),
{
    if c.len() == 0 {
        assert(a + c =~= a);
    } else {
        assert((a + c).drop_last() =~= a + c.drop_last());
        lemma_count_byte_concat(a, c.drop_last(), b);
    }
}

/// Text content concatenates.
pub proof fn lemma_text_bytes_concat(a: Seq<u8>, c: Seq<u8>)
    ensures
        text_bytes(a + c) == text_bytes(a) + text_bytes(c),
    decreases c.len(),
{
    if c.len() == 0 {
        assert(a + c =~= a);
        assert(text_bytes(a) + text_bytes(c) =~= text_bytes(a));
    } else {
        assert((a + c).drop_last() =~= a + c.drop_last());
        lemma_text_bytes_concat(a, c.drop_last());
        if !(c.last() == cr() || c.last() == lf()) {
            assert((text_bytes(a) + text_bytes(c.drop_last())).push(c.last()) =~= text_bytes(a)
                + text_bytes(c.drop_last()).push(c.last()));
        }
    }
}

/// `\r\n` pairs over a concatenation: those of each part plus one across the
/// seam when the first part ends in `\r` and the second starts with `\n`.
pub proof fn lemma_crlf_count_concat(a: Seq<u8>, c: Seq<u8>)
    ensures
        crlf_count(a + c) == crlf_count(a) + crlf_count(c) + if a.len() > 0 && c.len() > 0
            && a.last() == cr() && c[0] == lf() {
            1nat
        } else {
            0nat
        },
    decreases c.len(),
{
    if c.len() == 0 {
        assert(a + c =~= a);
    } else {
        let ac = a + c;
        assert(ac.drop_last() =~= a + c.drop_last());
        lemma_crlf_count_concat(a, c.drop_last());
        let k = ac.len() - 1;
        if c.len() >= 2 {
            assert(ac[k] == c[c.len() - 1]);
            assert(ac[k - 1] == c[c.len() - 2]);
            assert(is_crlf_at(ac, k) == is_crlf_at(c, c.len() - 1));
            assert(c.drop_last()[0] == c[0]);
        } else {
            assert(ac[k] == c[0]);
            assert(a.len() > 0 ==> ac[k - 1] == a.last());
            assert(!is_crlf_at(c, 0));
            assert(c.drop_last().len() == 0);
            assert(crlf_count(c.drop_last()) == 0);
        }
    }
}

/// Every `\n` is either the end of a `\r\n` pair or a lone `\n`.
pub proof fn lemma_lf_is_pair_or_lone(s: Seq<u8>)
    ensures
        crlf_count(s) + lone_lf_count(s) == count_byte(s, lf()),
    decreases s.len(),
{
    if s.len() > 0 {
        lemma_lf_is_pair_or_lone(s.drop_last());
    }
}

/// Counts and text of a one-byte sequence.
proof fn lemma_single_counts(x: u8)
    ensures
        count_byte(seq![x], lf()) == (if x == lf() { 1nat } else { 0nat }),
        count_byte(seq![x], cr()) == (if x == cr() { 1nat } else { 0nat }),
        crlf_count(seq![x]) == 0,
        text_bytes(seq![x]) == (if x == cr() || x == lf() { Seq::<u8>::empty() } else { seq![x] }),
{
    let e = Seq::<u8>::empty();
    assert(seq![x].drop_last() =~= e);
    assert(count_byte(e, lf()) == 0);
    assert(count_byte(e, cr()) == 0);
    assert(crlf_count(e) == 0);
    assert(text_bytes(e) == e);
    assert(e.push(x) =~= seq![x]);
}

/// Counts and text of a sequence split after its first `k` bytes.
proof fn lemma_split_counts(s: Seq<u8>, k: int)
    requires
        0 <= k <= s.len(),
    ensures
        s == s.take(k) + s.skip(k),
        count_byte(s, lf()) == count_byte(s.take(k), lf()) + count_byte(s.skip(k), lf()),
        count_byte(s, cr()) == count_byte(s.take(k), cr()) + count_byte(s.skip(k), cr()),
        text_bytes(s) == text_bytes(s.take(k)) + text_bytes(s.skip(k)),
{
    assert(s =~= s.take(k) + s.skip(k));
    lemma_count_byte_concat(s.take(k), s.skip(k), lf());
    lemma_count_byte_concat(s.take(k), s.skip(k), cr());
    lemma_text_bytes_concat(s.take(k), s.skip(k));
}

/// Normalisation keeps every line break and all other bytes: the normalised
/// sequence has exactly one `\n` per line break of `s` (each `\r\n` pair, lone
/// `\n` and lone `\r`) and the same bytes between them.
pub proof fn lemma_normalise_keeps_line_breaks(s: Seq<u8>)
    ensures
        count_byte(normalise_lf(s), lf()) == line_break_count(s),
        count_byte(normalise_lf(s), lf()) == crlf_count(s) + lone_lf_count(s) + (count_byte(s, cr())
            - crlf_count(s)),
        text_bytes(normalise_lf(s)) == text_bytes(s),
    decreases s.len(),
{
    lemma_lf_is_pair_or_lone(s);
    if s.len() == 0 {
        assert(normalise_lf(s) == Seq::<u8>::empty());
    } else {
        let n = normalise_lf(s);
        let k: int = if s[0] == cr() && s.len() >= 2 && s[1] == lf() {
            2
        } else {
            1
        };
        let t = s.skip(k);
        let h = s.take(k);
        lemma_normalise_keeps_line_breaks(t);
        lemma_split_counts(s, k);
        let nh = if s[0] == cr() {
            lf()
        } else {
            s[0]
        };
        assert(n == seq![nh] + normalise_lf(t));
        lemma_count_byte_concat(seq![nh], normalise_lf(t), lf());
        lemma_text_bytes_concat(seq![nh], normalise_lf(t));
        lemma_single_counts(nh);
        lemma_crlf_count_concat(h, t);
        if k == 2 {
            let e = Seq::<u8>::empty();
            assert(h == seq![cr()] + seq![lf()]);
            lemma_single_counts(cr());
            lemma_single_counts(lf());
            lemma_count_byte_concat(seq![cr()], seq![lf()], lf());
            lemma_count_byte_concat(seq![cr()], seq![lf()], cr());
            lemma_text_bytes_concat(seq![cr()], seq![lf()]);
            lemma_crlf_count_concat(seq![cr()], seq![lf()]);
            assert(text_bytes(h) =~= e);
        } else {
            assert(h =~= seq![s[0]]);
            lemma_single_counts(s[0]);
            assert(t.len() > 0 && s[0] == cr() ==> t[0] != lf());
        }
    }
}

/// `\r\n` expansion keeps the number of `\n` bytes and the text between them.
pub proof fn lemma_expand_keeps_line_breaks(x: Seq<u8>)
    ensures
        count_byte(expand_crlf(x), lf()) == count_byte(x, lf()),
        text_bytes(expand_crlf(x)) == text_bytes(x),
    decreases x.len(),
{
    if x.len() > 0 {
        let t = x.skip(1);
        lemma_expand_keeps_line_breaks(t);
        lemma_split_counts(x, 1);
        assert(x.take(1) =~= seq![x[0]]);
        lemma_single_counts(x[0]);
        if x[0] == lf() {
            assert(expand_crlf(x) == seq![cr(), lf()] + expand_crlf(t));
            assert(seq![cr(), lf()] == seq![cr()] + seq![lf()]);
            lemma_single_counts(cr());
            lemma_single_counts(lf());
            lemma_count_byte_concat(seq![cr()], seq![lf()], lf());
            lemma_text_bytes_concat(seq![cr()], seq![lf()]);
            lemma_count_byte_concat(seq![cr(), lf()], expand_crlf(t), lf());
            lemma_text_bytes_concat(seq![cr(), lf()], expand_crlf(t));
            assert(text_bytes(seq![cr(), lf()]) =~= Seq::<u8>::empty());
            assert(Seq::<u8>::empty() + text_bytes(expand_crlf(t)) =~= text_bytes(expand_crlf(t)));
            assert(Seq::<u8>::empty() + text_bytes(t) =~= text_bytes(t));
        } else {
            assert(expand_crlf(x) == seq![x[0]] + expand_crlf(t));
            lemma_count_byte_concat(seq![x[0]], expand_crlf(t), lf());
            lemma_text_bytes_concat(seq![x[0]], expand_crlf(t));
        }
    }
}

} // verus!
