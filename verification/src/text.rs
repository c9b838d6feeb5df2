use vstd::prelude::*;

verus! {

/// Whether `p` occurs in `hay` as a contiguous run.
pub open spec fn contains_seq(hay: Seq<char>, needle: Seq<char>) -> bool {
    exists|i: int|
        0 <= i && i + needle.len() <= hay.len() && #[trigger] hay.subrange(i, i + needle.len())
            == needle
}

/// What remains of `s` once every leading repetition of the nonempty
/// pattern `p` is removed.
pub open spec fn trim_prefix_rep(s: Seq<char>, p: Seq<char>) -> Seq<char>
    decreases s.len(),
{
    if p.len() > 0 && p.is_prefix_of(s) {
        trim_prefix_rep(s.skip(p.len() as int), p)
    } else {
        s
    }
}

/// `s` with one trailing occurrence of `p` removed, when it ends in one.
pub open spec fn strip_suffix_spec(s: Seq<char>, p: Seq<char>) -> Seq<char> {
    if p.is_suffix_of(s) {
        s.take(s.len() - p.len())
    } else {
        s
    }
}

/// Whether `p` is a prefix of `s`, decided character by character.
pub fn has_prefix(s: &str, p: &str) -> (r: bool)
    ensures
        r == p@.is_prefix_of(s@),
{
    let sl = s.unicode_len();
    let pl = p.unicode_len();
    if pl > sl {
        return false;
    }
    let mut i: usize = 0;
    while i < pl
        invariant
            i <= pl,
            pl <= sl,
            pl == p@.len(),
            sl == s@.len(),
            forall|j: int| 0 <= j < i ==> s@[j] == p@[j],
        decreases pl - i,
    {
        if s.get_char(i) != p.get_char(i) {
            proof {
                assert(s@.subrange(0, pl as int)[i as int] != p@[i as int]);
            }
            return false;
        }
        i += 1;
    }
    proof {
        assert(s@.subrange(0, pl as int) =~= p@);
    }
    true
}

/// Whether `a` and `b` hold the same characters.
pub fn str_eq(a: &str, b: &str) -> (r: bool)
    ensures
        r == (a@ == b@),
{
    let r = has_prefix(a, b) && has_prefix(b, a);
    proof {
        if r {
            assert(b@ =~= a@.subrange(0, b@.len() as int));
            assert(a@.subrange(0, a@.len() as int) =~= a@);
        }
    }
    r
}

/// Removes every leading repetition of `p` from `s`.
pub fn trim_prefix_repeated(s: &str, p: &str) -> (r: String)
    requires
        p@.len() > 0,
    ensures
        r@ == trim_prefix_rep(s@, p@),
{
    let sl = s.unicode_len();
    let pl = p.unicode_len();
    let mut i: usize = 0;
    proof {
        assert(s@.skip(0) =~= s@);
    }
    loop
        invariant
            i <= sl,
            sl == s@.len(),
            pl == p@.len(),
            pl > 0,
            trim_prefix_rep(s@, p@) == trim_prefix_rep(s@.skip(i as int), p@),
        ensures
            i <= sl,
            trim_prefix_rep(s@, p@) == s@.skip(i as int),
        decreases sl - i,
    {
        let rest = s.substring_char(i, sl);
        if has_prefix(rest, p) {
            proof {
                assert(s@.skip(i as int) =~= s@.subrange(i as int, sl as int));
                assert(s@.skip(i as int).skip(pl as int) =~= s@.skip(i as int + pl as int));
            }
            i += pl;
        } else {
            proof {
                assert(s@.skip(i as int) =~= s@.subrange(i as int, sl as int));
            }
            break;
        }
    }
    let rest = s.substring_char(i, sl);
    proof {
        assert(s@.skip(i as int) =~= s@.subrange(i as int, sl as int));
    }
    String::from_str(rest)
}

/// Removes one trailing occurrence of `p` from `s`, when it ends in one.
pub fn strip_suffix(s: &str, p: &str) -> (r: String)
    ensures
        r@ == strip_suffix_spec(s@, p@),
{
    let sl = s.unicode_len();
    let pl = p.unicode_len();
    if pl > sl {
        return String::from_str(s);
    }
    let tail = s.substring_char(sl - pl, sl);
    if str_eq(tail, p) {
        proof {
            assert(p@ =~= s@.subrange(sl as int - pl as int, sl as int));
            assert(s@.subrange(0, sl as int - pl as int) =~= s@.take(
                s@.len() - p@.len(),
            ));
        }
        String::from_str(s.substring_char(0, sl - pl))
    } else {
        proof {
            assert(!p@.is_suffix_of(s@));
        }
        String::from_str(s)
    }
}

} // verus!
