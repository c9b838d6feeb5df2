use vstd::prelude::*;

use crate::text::{
    has_prefix, strip_suffix, strip_suffix_spec, trim_prefix_rep, trim_prefix_repeated,
};

verus! {

/// The path separator.
pub open spec fn sep() -> Seq<char> {
    seq!['/']
}

/// The suffix that marks an entry file as ciphertext.
pub open spec fn entry_suffix() -> Seq<char> {
    seq!['.', 'g', 'p', 'g']
}

/// The on-disk path addressed by `key` under `base`, without the entry suffix.
pub open spec fn data_path_spec(base: Seq<char>, key: Seq<char>) -> Seq<char> {
    base + sep() + key
}

/// The on-disk entry file for `key` under `base`.
pub open spec fn entry_path_spec(base: Seq<char>, key: Seq<char>) -> Seq<char> {
    base + sep() + key + entry_suffix()
}

/// A relative path is hidden when its first character is a dot.
pub open spec fn is_hidden(s: Seq<char>) -> bool {
    s.len() > 0 && s[0] == '.'
}

/// Keys are nonempty and never hidden.
pub open spec fn valid_key(k: Seq<char>) -> bool {
    k.len() > 0 && k[0] != '.'
}

/// The key's parent namespace: everything before the last separator, empty
/// when the key holds none. A trailing separator is read as closing an
/// empty last segment, so a key ending in one parents to what stands before
/// that separator.
pub open spec fn parent_spec(k: Seq<char>) -> Seq<char>
    decreases k.len(),
{
    if k.len() == 0 {
        k
    } else if k[k.len() - 1] == '/' {
        k.drop_last()
    } else {
        parent_spec(k.drop_last())
    }
}

/// The relative form of a walked path: leading repetitions of `base`
/// removed, then leading separators.
pub open spec fn rel_path_spec(p: Seq<char>, base: Seq<char>) -> Seq<char> {
    trim_prefix_rep(trim_prefix_rep(p, base), sep())
}

/// The key a walked path names: its relative form with the trailing entry
/// suffix stripped. Only the suffix goes: a key may hold the same characters
/// in an interior segment and keeps them.
pub open spec fn key_of_path_spec(p: Seq<char>, base: Seq<char>) -> Seq<char> {
    strip_suffix_spec(rel_path_spec(p, base), entry_suffix())
}

/// Whether a walked path contributes a key to the listing under `prefix`:
/// its relative form is not hidden and its key starts with `prefix`.
pub open spec fn listed(p: Seq<char>, base: Seq<char>, prefix: Seq<char>) -> bool {
    !is_hidden(rel_path_spec(p, base)) && prefix.is_prefix_of(key_of_path_spec(p, base))
}

/// The keys the walked paths contribute, in walk order.
pub open spec fn list_spec(paths: Seq<Seq<char>>, base: Seq<char>, prefix: Seq<char>) -> Seq<
    Seq<char>,
>
    decreases paths.len(),
{
    if paths.len() == 0 {
        Seq::empty()
    } else {
        let rest = list_spec(paths.drop_last(), base, prefix);
        if listed(paths.last(), base, prefix) {
            rest.push(key_of_path_spec(paths.last(), base))
        } else {
            rest
        }
    }
}

/// Listing filter law: the listing holds exactly the keys, derived from some
/// walked file path, whose relative form is not hidden and whose text starts
/// with `prefix`.
pub proof fn lemma_list_spec_membership(
    paths: Seq<Seq<char>>,
    base: Seq<char>,
    prefix: Seq<char>,
    k: Seq<char>,
)
    ensures
        list_spec(paths, base, prefix).contains(k) <==> exists|i: int|
            0 <= i < paths.len() && listed(#[trigger] paths[i], base, prefix) && key_of_path_spec(
                paths[i],
                base,
            ) == k,
    decreases paths.len(),
{
    if paths.len() == 0 {
    } else {
        let front = paths.drop_last();
        lemma_list_spec_membership(front, base, prefix, k);
        let rest = list_spec(front, base, prefix);
        assert(forall|i: int| 0 <= i < front.len() ==> front[i] == paths[i]);
        if listed(paths.last(), base, prefix) {
            let whole = rest.push(key_of_path_spec(paths.last(), base));
            assert(list_spec(paths, base, prefix) == whole);
            if whole.contains(k) {
                let j = choose|j: int| 0 <= j < whole.len() && whole[j] == k;
                if j < rest.len() {
                    assert(rest[j] == k);
                    assert(rest.contains(k));
                } else {
                    assert(key_of_path_spec(paths[paths.len() - 1], base) == k);
                }
            }
            if exists|i: int|
                0 <= i < paths.len() && listed(#[trigger] paths[i], base, prefix)
                    && key_of_path_spec(paths[i], base) == k {
                let i = choose|i: int|
                    0 <= i < paths.len() && listed(#[trigger] paths[i], base, prefix)
                        && key_of_path_spec(paths[i], base) == k;
                if i < front.len() {
                    assert(rest.contains(k));
                    let j = choose|j: int| 0 <= j < rest.len() && rest[j] == k;
                    assert(whole[j] == k);
                } else {
                    assert(whole.last() == k);
                }
                assert(whole.contains(k));
            }
        } else {
            if rest.contains(k) {
                let i = choose|i: int|
                    0 <= i < front.len() && listed(#[trigger] front[i], base, prefix)
                        && key_of_path_spec(front[i], base) == k;
                assert(listed(paths[i], base, prefix));
            }
            if exists|i: int|
                0 <= i < paths.len() && listed(#[trigger] paths[i], base, prefix)
                    && key_of_path_spec(paths[i], base) == k {
                let i = choose|i: int|
                    0 <= i < paths.len() && listed(#[trigger] paths[i], base, prefix)
                        && key_of_path_spec(paths[i], base) == k;
                assert(i < front.len());
                assert(listed(front[i], base, prefix));
                assert(rest.contains(k));
            }
        }
    }
}

/// Joins `base` and `key` with a separator.
pub fn join_path(base: &str, key: &str) -> (r: String)
    ensures
        r@ == data_path_spec(base@, key@),
{
    let mut r = String::from_str(base);
    r.append("/");
    r.append(key);
    proof {
        reveal_strlit("/");
        assert("/"@ =~= sep());
        assert(r@ =~= data_path_spec(base@, key@));
    }
    r
}

/// The entry file path for `key` under `base`.
pub fn entry_path(base: &str, key: &str) -> (r: String)
    ensures
        r@ == entry_path_spec(base@, key@),
{
    let mut r = join_path(base, key);
    r.append(".gpg");
    proof {
        reveal_strlit(".gpg");
        assert(".gpg"@ =~= entry_suffix());
        assert(r@ =~= entry_path_spec(base@, key@));
    }
    r
}

/// The parent namespace of `key`.
pub fn parent_dir(key: &str) -> (r: String)
    ensures
        r@ == parent_spec(key@),
{
    let mut j = key.unicode_len();
    proof {
        assert(key@.subrange(0, j as int) =~= key@);
    }
    loop
        invariant_except_break
            parent_spec(key@) == parent_spec(key@.subrange(0, j as int)),
        invariant
            j <= key@.len(),
        ensures
            parent_spec(key@) == key@.subrange(0, j as int),
        decreases j,
    {
        if j == 0 {
            proof {
                assert(key@.subrange(0, 0) =~= Seq::<char>::empty());
            }
            break;
        }
        let c = key.get_char(j - 1);
        proof {
            assert(key@.subrange(0, j as int).drop_last() =~= key@.subrange(0, j as int - 1));
        }
        if c == '/' {
            j -= 1;
            break;
        }
        j -= 1;
    }
    let r = key.substring_char(0, j);
    String::from_str(r)
}

/// Whether the relative path `s` is hidden.
pub fn hidden(s: &str) -> (r: bool)
    ensures
        r == is_hidden(s@),
{
    if s.unicode_len() == 0 {
        false
    } else {
        s.get_char(0) == '.'
    }
}

/// Whether `k` may serve as a key.
pub fn check_key(k: &str) -> (r: bool)
    ensures
        r == valid_key(k@),
{
    if k.unicode_len() == 0 {
        false
    } else {
        k.get_char(0) != '.'
    }
}

/// The relative form of the walked path `p` under `base`.
pub fn rel_path(p: &str, base: &str) -> (r: String)
    ensures
        r@ == rel_path_spec(p@, base@),
{
    let trimmed = if base.unicode_len() == 0 {
        String::from_str(p)
    } else {
        trim_prefix_repeated(p, base)
    };
    proof {
        reveal_strlit("/");
        assert("/"@ =~= sep());
    }
    trim_prefix_repeated(trimmed.as_str(), "/")
}

/// The key the walked path `p` names under `base`.
pub fn key_of_path(p: &str, base: &str) -> (r: String)
    ensures
        r@ == key_of_path_spec(p@, base@),
{
    let rel = rel_path(p, base);
    proof {
        reveal_strlit(".gpg");
        assert(".gpg"@ =~= entry_suffix());
    }
    strip_suffix(rel.as_str(), ".gpg")
}

/// The keys named by the walked file paths under `base` that start with
/// `prefix`, hidden paths left out, in walk order.
pub fn list_keys(base: &str, paths: &Vec<String>, prefix: &str) -> (r: Vec<String>)
    ensures
        r.deep_view() == list_spec(paths.deep_view(), base@, prefix@),
{
    let mut out: Vec<String> = Vec::new();
    let n = paths.len();
    let mut i: usize = 0;
    proof {
        assert(paths.deep_view().take(0) =~= Seq::<Seq<char>>::empty());
        assert(out.deep_view() =~= Seq::<Seq<char>>::empty());
    }
    while i < n
        invariant
            i <= n,
            n == paths@.len(),
            out.deep_view() == list_spec(paths.deep_view().take(i as int), base@, prefix@),
        decreases n - i,
    {
        let p = &paths[i];
        let rel = rel_path(p.as_str(), base);
        let key = key_of_path(p.as_str(), base);
        proof {
            assert(paths.deep_view()[i as int] == paths@[i as int]@);
            assert(paths.deep_view().take(i as int + 1).drop_last() =~= paths.deep_view().take(
                i as int,
            ));
            assert(paths.deep_view().take(i as int + 1).last() == paths.deep_view()[i as int]);
        }
        if !hidden(rel.as_str()) && has_prefix(key.as_str(), prefix) {
            let ghost before = out.deep_view();
            out.push(key);
            proof {
                assert(out.deep_view() =~= before.push(key@));
            }
        }
        i += 1;
    }
    proof {
        assert(paths.deep_view().take(n as int) =~= paths.deep_view());
    }
    out
}

} // verus!
