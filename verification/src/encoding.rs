//! Big-endian byte strings and hex digit strings as the integers they
//! denote, with the facts the codecs rest on.

use vstd::prelude::*;

verus! {

/// The unsigned integer that a big-endian byte string denotes.
pub open spec fn be_val(s: Seq<u8>) -> nat
    decreases s.len(),
{
    if s.len() == 0 {
        0
    } else {
        (be_val(s.drop_last()) * 256 + s.last()) as nat
    }
}

/// Equal-length byte strings denoting the same integer are equal:
/// the canonical encoding of a residue is unique.
pub proof fn lemma_be_val_injective(a: Seq<u8>, b: Seq<u8>)
    requires
        a.len() == b.len(),
        be_val(a) == be_val(b),
    ensures
        a == b,
    decreases a.len(),
{
    if a.len() == 0 {
        assert(a =~= b);
    } else {
        assert(be_val(a) % 256 == a.last()) by {
            assert(be_val(a) == be_val(a.drop_last()) * 256 + a.last());
            vstd::arithmetic::div_mod::lemma_mod_multiples_vanish(
                be_val(a.drop_last()) as int,
                a.last() as int,
                256,
            );
            vstd::arithmetic::div_mod::lemma_small_mod(a.last() as nat, 256);
        }
        assert(be_val(b) % 256 == b.last()) by {
            assert(be_val(b) == be_val(b.drop_last()) * 256 + b.last());
            vstd::arithmetic::div_mod::lemma_mod_multiples_vanish(
                be_val(b.drop_last()) as int,
                b.last() as int,
                256,
            );
            vstd::arithmetic::div_mod::lemma_small_mod(b.last() as nat, 256);
        }
        assert(a.last() == b.last());
        assert(be_val(a.drop_last()) * 256 == be_val(b.drop_last()) * 256);
        assert(be_val(a.drop_last()) == be_val(b.drop_last()));
        lemma_be_val_injective(a.drop_last(), b.drop_last());
        assert(a =~= a.drop_last().push(a.last()));
        assert(b =~= b.drop_last().push(b.last()));
    }
}

/// A byte string denotes zero exactly when every byte is zero.
pub proof fn lemma_be_val_zero_iff(s: Seq<u8>)
    ensures
        be_val(s) == 0 <==> (forall|i: int| 0 <= i < s.len() ==> s[i] == 0),
    decreases s.len(),
{
    if s.len() > 0 {
        lemma_be_val_zero_iff(s.drop_last());
        assert(be_val(s) == be_val(s.drop_last()) * 256 + s.last());
        assert(forall|i: int| 0 <= i < s.len() - 1 ==> #[trigger] s.drop_last()[i] == s[i]);
        if be_val(s) == 0 {
            assert(be_val(s.drop_last()) == 0);
            assert forall|i: int| 0 <= i < s.len() implies s[i] == 0 by {
                if i < s.len() - 1 {
                    assert(s[i] == s.drop_last()[i]);
                } else {
                    assert(s[i] == s.last());
                }
            }
        } else {
            assert(!(forall|i: int| 0 <= i < s.len() ==> s[i] == 0)) by {
                if forall|i: int| 0 <= i < s.len() ==> s[i] == 0 {
                    assert forall|i: int| 0 <= i < s.drop_last().len() implies #[trigger] s.drop_last()[i]
                        == 0 by {
                        assert(s.drop_last()[i] == s[i]);
                    }
                    assert(be_val(s.drop_last()) == 0);
                    assert(s.last() == s[s.len() - 1]);
                    assert(be_val(s) == 0);
                }
            }
        }
    }
}

/// Prepending a zero byte leaves the denoted integer unchanged.
pub proof fn lemma_be_val_prepend_zero(s: Seq<u8>)
    ensures
        be_val(seq![0u8] + s) == be_val(s),
    decreases s.len(),
{
    if s.len() == 0 {
        assert(seq![0u8] + s =~= seq![0u8]);
        assert(be_val(seq![0u8]) == be_val(seq![0u8].drop_last()) * 256 + 0);
        assert(seq![0u8].drop_last() =~= Seq::<u8>::empty());
    } else {
        let t = seq![0u8] + s;
        assert(t.drop_last() =~= seq![0u8] + s.drop_last());
        assert(t.last() == s.last());
        lemma_be_val_prepend_zero(s.drop_last());
    }
}

/// Left-padding with zero bytes leaves the denoted integer unchanged.
pub proof fn lemma_be_val_zero_pad(s: Seq<u8>, k: nat)
    ensures
        be_val(Seq::new(k, |i: int| 0u8) + s) == be_val(s),
    decreases k,
{
    if k == 0 {
        assert(Seq::new(0, |i: int| 0u8) + s =~= s);
    } else {
        lemma_be_val_zero_pad(s, (k - 1) as nat);
        assert(Seq::new(k, |i: int| 0u8) + s =~= seq![0u8] + (Seq::new(
            (k - 1) as nat,
            |i: int| 0u8,
        ) + s));
        lemma_be_val_prepend_zero(Seq::new((k - 1) as nat, |i: int| 0u8) + s);
    }
}

/// Whether a character is an ASCII hex digit, of either case.
pub open spec fn is_hex_digit(c: char) -> bool {
    ('0' as int <= c as int && c as int <= '9' as int) || ('a' as int <= c as int && c as int
        <= 'f' as int) || ('A' as int <= c as int && c as int <= 'F' as int)
}

/// The value of one hex digit.
pub open spec fn hex_digit_val(c: char) -> nat {
    if '0' as int <= c as int && c as int <= '9' as int {
        (c as int - '0' as int) as nat
    } else if 'a' as int <= c as int && c as int <= 'f' as int {
        (c as int - 'a' as int + 10) as nat
    } else if 'A' as int <= c as int && c as int <= 'F' as int {
        (c as int - 'A' as int + 10) as nat
    } else {
        0
    }
}

/// The unsigned integer that a big-endian hex digit string denotes.
pub open spec fn hex_val(s: Seq<char>) -> nat
    decreases s.len(),
{
    if s.len() == 0 {
        0
    } else {
        (hex_val(s.drop_last()) * 16 + hex_digit_val(s.last())) as nat
    }
}

/// The digit string with a single leading `0x` or `0X` marker removed;
/// a string without the marker stands as it is.
pub open spec fn strip_hex_prefix(s: Seq<char>) -> Seq<char> {
    if s.len() >= 2 && s[0] == '0' && (s[1] == 'x' || s[1] == 'X') {
        s.subrange(2, s.len() as int)
    } else {
        s
    }
}

/// Prepending a zero digit leaves the denoted integer unchanged:
/// an odd-length hex string reads as if padded to even length.
pub proof fn lemma_hex_val_prepend_zero(s: Seq<char>)
    ensures
        hex_val(seq!['0'] + s) == hex_val(s),
    decreases s.len(),
{
    if s.len() == 0 {
        let t = seq!['0'] + s;
        assert(t =~= seq!['0']);
        assert(t.drop_last() =~= Seq::<char>::empty());
        assert(t.last() == '0');
        assert(hex_val(t) == hex_val(t.drop_last()) * 16 + hex_digit_val(t.last()));
        assert(hex_digit_val('0') == 0);
    } else {
        let t = seq!['0'] + s;
        assert(t.drop_last() =~= seq!['0'] + s.drop_last());
        assert(t.last() == s.last());
        assert(hex_val(t) == hex_val(t.drop_last()) * 16 + hex_digit_val(t.last()));
        lemma_hex_val_prepend_zero(s.drop_last());
    }
}

/// A byte string assembled from consecutive pairs of hex digits denotes
/// the same integer as the digit string itself.
pub proof fn lemma_hex_pairs_be_val(d: Seq<char>, v: Seq<u8>)
    requires
        d.len() == 2 * v.len(),
        forall|i: int|
            0 <= i < v.len() ==> #[trigger] v[i] == 16 * hex_digit_val(d[2 * i]) + hex_digit_val(
                d[2 * i + 1],
            ),
    ensures
        be_val(v) == hex_val(d),
    decreases v.len(),
{
    if v.len() > 0 {
        let n = v.len() as int;
        let d2 = d.subrange(0, 2 * n - 2);
        let v2 = v.drop_last();
        assert(forall|i: int|
            0 <= i < v2.len() ==> #[trigger] v2[i] == 16 * hex_digit_val(d2[2 * i])
                + hex_digit_val(d2[2 * i + 1])) by {
            assert(forall|i: int| 0 <= i < v2.len() ==> #[trigger] v2[i] == v[i]);
            assert(forall|j: int| 0 <= j < d2.len() ==> #[trigger] d2[j] == d[j]);
        }
        lemma_hex_pairs_be_val(d2, v2);
        assert(d.drop_last().drop_last() =~= d2);
        assert(hex_val(d) == hex_val(d.drop_last()) * 16 + hex_digit_val(d.last()));
        assert(hex_val(d.drop_last()) == hex_val(d2) * 16 + hex_digit_val(d.drop_last().last()));
        assert(d.last() == d[2 * n - 1]);
        assert(d.drop_last().last() == d[2 * n - 2]);
        assert(v.last() == v[n - 1]);
        assert(be_val(v) == be_val(v2) * 256 + v.last());
        assert(hex_val(d) == (hex_val(d2) * 16 + hex_digit_val(d[2 * n - 2])) * 16 + hex_digit_val(
            d[2 * n - 1],
        ));
    }
}

} // verus!
