//! Building the text that programs print on the console.
use vstd::prelude::*;
use vstd::string::*;

verus! {

/// The decimal digits of `v`, most significant first, in ASCII.
pub open spec fn decimal(v: nat) -> Seq<u8>
    decreases v,
{
    if v < 10 {
        seq![(48 + v) as u8]
    } else {
        decimal(v / 10) + seq![(48 + v % 10) as u8]
    }
}

/// `s` backwards.
pub open spec fn backwards(s: Seq<u8>) -> Seq<u8>
    decreases s.len(),
{
    if s.len() == 0 {
        Seq::empty()
    } else {
        seq![s.last()] + backwards(s.drop_last())
    }
}

/// Element `j` of `s` backwards is element `len - 1 - j` of `s`.
pub proof fn lemma_backwards_index(s: Seq<u8>, j: int)
    requires
        0 <= j < s.len(),
    ensures
        backwards(s).len() == s.len(),
        backwards(s)[j] == s[s.len() - 1 - j],
    decreases s.len(),
{
    lemma_backwards_len(s.drop_last());
    if j > 0 {
        lemma_backwards_index(s.drop_last(), j - 1);
    }
}

/// Reversing keeps the length.
pub proof fn lemma_backwards_len(s: Seq<u8>)
    ensures
        backwards(s).len() == s.len(),
    decreases s.len(),
{
    if s.len() > 0 {
        lemma_backwards_len(s.drop_last());
    }
}

/// The decimal text of `value`: "0" for zero, otherwise its digits without
/// leading zeros.
pub fn decimal_text(value: usize) -> (text: Vec<u8>)
    ensures
        text@ == decimal(value as nat),
{
    if value == 0 {
        let mut z: Vec<u8> = Vec::new();
        z.push(48);
        proof {
            assert(z@ =~= decimal(0));
        }
        return z;
    }
    let ghost v0 = value as nat;
    let mut value = value;
    let mut buf: Vec<u8> = Vec::new();
    while value > 0
        invariant
            v0 > 0,
            value > 0 ==> decimal(v0) == decimal(value as nat) + backwards(buf@),
            value == 0 ==> decimal(v0) == backwards(buf@),
        decreases value,
    {
        let d = (value % 10) as u8;
        proof {
            let b2 = buf@.push((48 + d) as u8);
            assert(b2.drop_last() =~= buf@);
            assert(backwards(b2) == seq![(48 + d) as u8] + backwards(buf@));
            if value >= 10 {
                assert(decimal(value as nat) == decimal((value / 10) as nat) + seq![(48 + value % 10) as u8]);
                assert(decimal(v0) =~= decimal((value / 10) as nat) + backwards(b2));
            } else {
                assert(decimal(v0) =~= backwards(b2));
            }
        }
        buf.push(48 + d);
        value /= 10;
    }
    let mut out: Vec<u8> = Vec::new();
    let mut len = buf.len();
    proof {
        lemma_backwards_len(buf@);
    }
    while len > 0
        invariant
            len <= buf@.len(),
            out@ == backwards(buf@).subrange(0, buf@.len() - len),
            backwards(buf@).len() == buf@.len(),
        decreases len,
    {
        len -= 1;
        out.push(buf[len]);
        proof {
            lemma_backwards_index(buf@, buf@.len() - 1 - len);
            assert(out@ =~= backwards(buf@).subrange(0, buf@.len() - len));
        }
    }
    proof {
        assert(out@ =~= backwards(buf@));
    }
    out
}

/// Appends the bytes of `s`.
pub fn push_str(out: &mut Vec<u8>, s: &str)
    ensures
        final(out)@ == old(out)@ + s.spec_bytes(),
{
    let bytes = s.as_bytes();
    let mut i: usize = 0;
    while i < bytes.len()
        invariant
            i <= bytes@.len(),
            bytes@ == s.spec_bytes(),
            out@ == old(out)@ + bytes@.subrange(0, i as int),
        decreases bytes@.len() - i,
    {
        out.push(bytes[i]);
        i += 1;
        proof {
            assert(out@ =~= old(out)@ + bytes@.subrange(0, i as int));
        }
    }
    proof {
        assert(bytes@.subrange(0, bytes@.len() as int) =~= bytes@);
    }
}

} // verus!
