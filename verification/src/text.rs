//! Verified text primitives: character-level equality, substring search,
//! occurrence replacement, and file-name extension logic, each specified
//! over character sequences.

use vstd::prelude::*;
use vstd::string::*;

verus! {

/// The suffix of `s` that follows the last occurrence of `c`; `s` itself when
/// `c` does not occur in it.
pub open spec fn after_last(s: Seq<char>, c: char) -> Seq<char>
    decreases s.len(),
{
    if s.contains(c) {
        after_last(s.drop_first(), c)
    } else {
        s
    }
}

/// `pat` occurs as a contiguous run of characters somewhere in `s`.
pub open spec fn contains_seq(s: Seq<char>, pat: Seq<char>) -> bool {
    exists|i: int| 0 <= i && i + pat.len() <= s.len() && #[trigger] s.subrange(i, i + pat.len())
        == pat
}

/// `s` with every non-overlapping occurrence of `pat` replaced by `rep`,
/// scanning from the left. An empty `pat` leaves `s` unchanged.
pub open spec fn replaced(s: Seq<char>, pat: Seq<char>, rep: Seq<char>) -> Seq<char>
    decreases s.len(),
{
    if pat.len() == 0 || s.len() == 0 {
        s
    } else if pat.len() <= s.len() && s.subrange(0, pat.len() as int) == pat {
        rep + replaced(s.subrange(pat.len() as int, s.len() as int), pat, rep)
    } else {
        seq![s[0]] + replaced(s.subrange(1, s.len() as int), pat, rep)
    }
}

/// Character-for-character equality of two string slices.
pub fn eq_str(a: &str, b: &str) -> (r: bool)
    ensures
        r == (a@ == b@),
{
    let a_len = a.unicode_len();
    let b_len = b.unicode_len();
    if a_len != b_len {
        proof {
            assert(a@.len() != b@.len());
        }
        return false;
    }
    let mut i: usize = 0;
    while i < a_len
        invariant
            i <= a_len,
            a_len == a@.len(),
            b_len == b@.len(),
            a_len == b_len,
            forall|j: int| 0 <= j < i ==> a@[j] == b@[j],
        decreases a_len - i,
    {
        let ca = a.get_char(i);
        let cb = b.get_char(i);
        if ca != cb {
            proof {
                assert(a@[i as int] != b@[i as int]);
            }
            return false;
        }
        i += 1;
    }
    proof {
        assert(a@ =~= b@);
    }
    true
}

/// Whether `pat` occurs in `s` starting exactly at character position `i`.
fn match_at(s: &str, pat: &str, i: usize) -> (r: bool)
    requires
        i + pat@.len() <= s@.len(),
    ensures
        r == (s@.subrange(i as int, i + pat@.len()) == pat@),
{
    let s_len = s.unicode_len();
    let pat_len = pat.unicode_len();
    let mut j: usize = 0;
    while j < pat_len
        invariant
            j <= pat_len,
            s_len == s@.len(),
            pat_len == pat@.len(),
            i + pat_len <= s_len,
            forall|k: int| 0 <= k < j ==> s@[i + k] == pat@[k],
        decreases pat_len - j,
    {
        let cs = s.get_char(i + j);
        let cp = pat.get_char(j);
        if cs != cp {
            proof {
                let sub = s@.subrange(i as int, i + pat@.len());
                assert(sub[j as int] == s@[i + j]);
            }
            return false;
        }
        j += 1;
    }
    proof {
        assert(s@.subrange(i as int, i + pat@.len()) =~= pat@);
    }
    true
}

/// Whether `pat` occurs anywhere in `s`.
pub fn contains_str(s: &str, pat: &str) -> (r: bool)
    ensures
        r == contains_seq(s@, pat@),
{
    let s_len = s.unicode_len();
    let pat_len = pat.unicode_len();
    if pat_len > s_len {
        return false;
    }
    let bound = s_len - pat_len;
    let mut i: usize = 0;
    while i <= bound
        invariant
            i <= bound,
            s_len == s@.len(),
            pat_len == pat@.len(),
            pat_len <= s_len,
            bound == s_len - pat_len,
            forall|k: int| 0 <= k < i ==> #[trigger] s@.subrange(k, k + pat@.len()) != pat@,
        decreases bound + 1 - i,
    {
        if match_at(s, pat, i) {
            return true;
        }
        if i == bound {
            return false;
        }
        i += 1;
    }
    false
}

/// `s` with every non-overlapping occurrence of `pat` replaced by `rep`,
/// scanning from the left.
pub fn replace_str(s: &str, pat: &str, rep: &str) -> (r: String)
    requires
        pat@.len() >= 1,
    ensures
        r@ == replaced(s@, pat@, rep@),
{
    let s_len = s.unicode_len();
    let pat_len = pat.unicode_len();
    let mut out = String::new();
    let mut i: usize = 0;
    proof {
        assert(s@.subrange(0, s@.len() as int) =~= s@);
        assert(Seq::<char>::empty() + replaced(s@, pat@, rep@) =~= replaced(s@, pat@, rep@));
    }
    while i < s_len
        invariant
            i <= s_len,
            s_len == s@.len(),
            pat_len == pat@.len(),
            pat_len >= 1,
            replaced(s@, pat@, rep@) == out@ + replaced(
                s@.subrange(i as int, s@.len() as int),
                pat@,
                rep@,
            ),
        decreases s_len - i,
    {
        let ghost prev_out = out@;
        let ghost tail = s@.subrange(i as int, s@.len() as int);
        if pat_len <= s_len - i && match_at(s, pat, i) {
            out.append(rep);
            proof {
                assert(tail.subrange(0, pat@.len() as int) =~= s@.subrange(
                    i as int,
                    i + pat@.len(),
                ));
                assert(tail.subrange(pat@.len() as int, tail.len() as int) =~= s@.subrange(
                    i + pat@.len(),
                    s@.len() as int,
                ));
                let rest = replaced(s@.subrange(i + pat@.len(), s@.len() as int), pat@, rep@);
                assert(prev_out + (rep@ + rest) =~= (prev_out + rep@) + rest);
            }
            i += pat_len;
        } else {
            let piece = s.substring_char(i, i + 1);
            out.append(piece);
            proof {
                assert(tail.len() >= 1);
                assert(!(pat@.len() <= tail.len() && tail.subrange(0, pat@.len() as int) == pat@))
                    by {
                    if pat@.len() <= tail.len() {
                        assert(tail.subrange(0, pat@.len() as int) =~= s@.subrange(
                            i as int,
                            i + pat@.len(),
                        ));
                    }
                }
                assert(tail.subrange(1, tail.len() as int) =~= s@.subrange(
                    i + 1,
                    s@.len() as int,
                ));
                assert(piece@ =~= seq![tail[0]]);
                let rest = replaced(s@.subrange(i + 1, s@.len() as int), pat@, rep@);
                assert(prev_out + (seq![tail[0]] + rest) =~= (prev_out + piece@) + rest);
            }
            i += 1;
        }
    }
    proof {
        assert(s@.subrange(i as int, s@.len() as int).len() == 0);
        assert(out@ + s@.subrange(i as int, s@.len() as int) =~= out@);
    }
    out
}

/// Whether some element of `items` equals `x`, character for character.
pub fn contains_string(items: &Vec<String>, x: &str) -> (r: bool)
    ensures
        r == (exists|j: int| 0 <= j < items@.len() && items@[j]@ == x@),
{
    let mut i: usize = 0;
    while i < items.len()
        invariant
            i <= items@.len(),
            forall|j: int| 0 <= j < i ==> items@[j]@ != x@,
        decreases items@.len() - i,
    {
        if eq_str(items[i].as_str(), x) {
            return true;
        }
        i += 1;
    }
    false
}

proof fn lemma_after_last_at(s: Seq<char>, c: char, k: int)
    requires
        0 <= k < s.len(),
        s[k] == c,
        forall|j: int| k < j < s.len() ==> s[j] != c,
    ensures
        after_last(s, c) == s.subrange(k + 1, s.len() as int),
    decreases s.len(),
{
    assert(s.contains(c));
    let tail = s.drop_first();
    if k == 0 {
        assert(!tail.contains(c)) by {
            if tail.contains(c) {
                let j = choose|j: int| 0 <= j < tail.len() && tail[j] == c;
                assert(s[j + 1] == c);
            }
        }
        assert(after_last(tail, c) == tail);
        assert(after_last(s, c) == after_last(tail, c));
        assert(tail =~= s.subrange(1, s.len() as int));
    } else {
        lemma_after_last_at(tail, c, k - 1);
        assert(tail.subrange(k, tail.len() as int) =~= s.subrange(k + 1, s.len() as int));
    }
}

proof fn lemma_after_last_absent(s: Seq<char>, c: char)
    requires
        forall|j: int| 0 <= j < s.len() ==> s[j] != c,
    ensures
        after_last(s, c) == s,
{
    assert(!s.contains(c));
}

/// The suffix of `s` that follows the last occurrence of `c`, or `s` itself
/// when `c` does not occur.
pub fn suffix_after_last<'a>(s: &'a str, c: char) -> (r: &'a str)
    ensures
        r@ == after_last(s@, c),
{
    let s_len = s.unicode_len();
    let mut i: usize = 0;
    let mut last: usize = 0;
    let mut found = false;
    while i < s_len
        invariant
            i <= s_len,
            s_len == s@.len(),
            found ==> last < i && s@[last as int] == c && (forall|j: int|
                last < j < i ==> s@[j] != c),
            !found ==> forall|j: int| 0 <= j < i ==> s@[j] != c,
        decreases s_len - i,
    {
        if s.get_char(i) == c {
            last = i;
            found = true;
        }
        i += 1;
    }
    if found {
        proof {
            lemma_after_last_at(s@, c, last as int);
        }
        s.substring_char(last + 1, s_len)
    } else {
        proof {
            lemma_after_last_absent(s@, c);
        }
        s
    }
}

/// The extension of the file name `name`: what follows the last dot, provided
/// a dot occurs past the first character. A name whose only dot is the leading
/// one (a hidden file) has no extension.
pub open spec fn spec_extension(name: Seq<char>) -> Option<Seq<char>> {
    if exists|i: int| 1 <= i < name.len() && name[i] == '.' {
        Some(after_last(name, '.'))
    } else {
        None
    }
}

/// The file-name component of `path`: what follows the last path separator.
pub open spec fn spec_file_name(path: Seq<char>) -> Seq<char> {
    after_last(path, '/')
}

/// Whether `path` names a file whose extension is `yaml` or `yml`.
pub open spec fn is_workflow_path(path: Seq<char>) -> bool {
    spec_extension(spec_file_name(path)) == Some("yaml"@) || spec_extension(spec_file_name(path))
        == Some("yml"@)
}

/// Whether the file named by `path` has a `yaml` or `yml` extension.
pub fn has_workflow_extension(path: &str) -> (r: bool)
    ensures
        r == is_workflow_path(path@),
{
    let name = suffix_after_last(path, '/');
    let n_len = name.unicode_len();
    let mut i: usize = 1;
    let mut has_dot = false;
    while i < n_len
        invariant
            1 <= i || n_len == 0,
            i <= n_len || (n_len == 0 && i == 1),
            n_len == name@.len(),
            has_dot ==> exists|j: int| 1 <= j < name@.len() && name@[j] == '.',
            !has_dot ==> forall|j: int| 1 <= j < i ==> name@[j] != '.',
        decreases n_len - i,
    {
        if name.get_char(i) == '.' {
            has_dot = true;
        }
        i += 1;
    }
    if !has_dot {
        proof {
            assert(spec_extension(name@) is None);
        }
        return false;
    }
    let ext = suffix_after_last(name, '.');
    let is_yaml = eq_str(ext, "yaml");
    let is_yml = eq_str(ext, "yml");
    proof {
        assert(spec_extension(name@) == Some(ext@));
    }
    is_yaml || is_yml
}

} // verus!
