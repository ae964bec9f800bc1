use vstd::prelude::*;

verus! {

/// The bytes of an ASCII text, one per character.
pub open spec fn ascii_bytes(s: Seq<char>) -> Seq<u8> {
    Seq::new(s.len(), |i: int| s[i] as u8)
}

/// `pat` occurs in `hay` starting at position `i`.
pub open spec fn contains_at(hay: Seq<u8>, pat: Seq<u8>, i: int) -> bool {
    0 <= i && i + pat.len() <= hay.len() && hay.subrange(i, i + pat.len()) =~= pat
}

/// `pat` occurs somewhere in `hay`.
pub open spec fn contains_subslice(hay: Seq<u8>, pat: Seq<u8>) -> bool {
    exists|i: int| contains_at(hay, pat, i)
}

/// The bytes of an ASCII string slice, as a new vector.
pub fn ascii_literal(s: &str) -> (r: Vec<u8>)
    requires
        vstd::utf8::is_ascii_chars(s@),
    ensures
        r@ == ascii_bytes(s@),
{
    proof {
        vstd::string::is_ascii_spec_bytes(s);
    }
    let b = s.as_bytes();
    let r = vstd::slice::slice_to_vec(b);
    assert(r@ =~= ascii_bytes(s@));
    r
}

/// Appends every byte of `src` to `dst`, in order.
pub fn append_bytes(dst: &mut Vec<u8>, src: &[u8])
    ensures
        final(dst)@ == old(dst)@ + src@,
{
    let mut i: usize = 0;
    while i < src.len()
        invariant
            i <= src@.len(),
            dst@ == old(dst)@ + src@.subrange(0, i as int),
        decreases src@.len() - i,
    {
        dst.push(src[i]);
        i = i + 1;
        assert(src@.subrange(0, i as int) =~= src@.subrange(0, i - 1) + seq![src@[i - 1]]);
    }
    assert(src@.subrange(0, src@.len() as int) =~= src@);
}

/// A new vector holding the bytes of `src`.
pub fn copy_bytes(src: &[u8]) -> (r: Vec<u8>)
    ensures
        r@ == src@,
{
    let mut r: Vec<u8> = Vec::new();
    append_bytes(&mut r, src);
    assert(r@ =~= src@);
    r
}

/// Whether `pat` occurs in `hay`.
pub fn has_subslice(hay: &[u8], pat: &[u8]) -> (r: bool)
    ensures
        r == contains_subslice(hay@, pat@),
{
    let n: usize = hay.len();
    let mut i: usize = 0;
    while i <= n && pat.len() <= n - i
        invariant
            n == hay@.len(),
            i <= hay@.len() + 1,
            forall|k: int| 0 <= k < i ==> !contains_at(hay@, pat@, k),
        decreases hay@.len() + 1 - i,
    {
        let mut j: usize = 0;
        let mut same = true;
        while j < pat.len()
            invariant
                n == hay@.len(),
                i + pat@.len() <= hay@.len(),
                j <= pat@.len(),
                same <==> forall|m: int| 0 <= m < j ==> hay@[i + m] == pat@[m],
            decreases pat@.len() - j,
        {
            if hay[i + j] != pat[j] {
                same = false;
            }
            j = j + 1;
        }
        if same {
            assert(hay@.subrange(i as int, i + pat@.len()) =~= pat@);
            assert(contains_at(hay@, pat@, i as int));
            return true;
        }
        assert(!contains_at(hay@, pat@, i as int)) by {
            if hay@.subrange(i as int, i + pat@.len()) =~= pat@ {
                assert(forall|m: int|
                    0 <= m < pat@.len() ==> #[trigger] pat@[m] == hay@.subrange(
                        i as int,
                        i + pat@.len(),
                    )[m]);
            }
        }
        i = i + 1;
    }
    assert(!contains_subslice(hay@, pat@)) by {
        assert forall|k: int| !contains_at(hay@, pat@, k) by {
            if 0 <= k && k + pat@.len() <= hay@.len() {
                assert(k < i);
            }
        }
    }
    false
}

} // verus!
