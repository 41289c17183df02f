//! Path and naming-pattern logic.
//!
//! A texture path may be a template standing for a whole family of
//! per-region files: every bracket-delimited token (such as a UDIM marker)
//! is replaced by a single wildcard before the file system is searched.
//! This module holds that expansion, the canonical-container naming rule
//! (the source extension replaced by `.tx`), and parent-directory
//! computation, all as plain character-sequence functions; globbing the
//! expanded pattern against the file system is the caller's business.

use vstd::prelude::*;
use vstd::string::{StrSliceExecFns, StringExecFns};

verus! {

/// Smallest index at or after `from` holding the closing mark '>', or the
/// sequence's length where none follows.
pub open spec fn first_close(s: Seq<char>, from: int) -> int
    decreases s.len() - from,
{
    if from < 0 || from >= s.len() {
        s.len() as int
    } else if s[from] == '>' {
        from
    } else {
        first_close(s, from + 1)
    }
}

/// Bounds and characterization of [`first_close`]: it lands on the first
/// '>' at or after `from`, or on the length where there is none.
pub proof fn lemma_first_close(s: Seq<char>, from: int)
    requires
        0 <= from <= s.len(),
    ensures
        from <= first_close(s, from) <= s.len(),
        first_close(s, from) < s.len() ==> s[first_close(s, from)] == '>',
        forall|j: int| from <= j < first_close(s, from) ==> s[j] != '>',
    decreases s.len() - from,
{
    if from < s.len() && s[from] != '>' {
        lemma_first_close(s, from + 1);
    }
}

#[via_fn]
proof fn expand_tags_from_decreases(s: Seq<char>, i: int) {
    if 0 <= i < s.len() && s[i] == '<' {
        lemma_first_close(s, i + 1);
    }
}

/// The template suffix starting at `i`, with every bracket-delimited token
/// span replaced by one '*': at a '<' that a later '>' closes, the whole
/// span becomes '*' and scanning resumes after the '>'; a '<' that nothing
/// closes is kept verbatim together with all that follows it.
pub open spec fn expand_tags_from(s: Seq<char>, i: int) -> Seq<char>
    decreases s.len() - i,
    via expand_tags_from_decreases
{
    if i < 0 || i >= s.len() {
        Seq::empty()
    } else if s[i] == '<' {
        if first_close(s, i + 1) < s.len() {
            seq!['*'] + expand_tags_from(s, first_close(s, i + 1) + 1)
        } else {
            s.skip(i)
        }
    } else {
        seq![s[i]] + expand_tags_from(s, i + 1)
    }
}

/// A template path with every bracket-delimited token replaced by a
/// wildcard.
pub open spec fn expand_tags(s: Seq<char>) -> Seq<char> {
    expand_tags_from(s, 0)
}

/// Whether the path is a template: it holds at least one opening bracket.
pub open spec fn spec_has_tag(s: Seq<char>) -> bool {
    exists|i: int| 0 <= i < s.len() && s[i] == '<'
}

/// Largest index below `end` holding `c`, or -1 where there is none.
pub open spec fn last_index_before(s: Seq<char>, end: int, c: char) -> int
    decreases end,
{
    if end <= 0 {
        -1
    } else if s[end - 1] == c {
        end - 1
    } else {
        last_index_before(s, end - 1, c)
    }
}

/// Length of the prefix `s[..end]` once its trailing run of '/' marks is
/// removed.
pub open spec fn trim_slashes_end(s: Seq<char>, end: int) -> int
    decreases end,
{
    if end <= 0 {
        0
    } else if s[end - 1] == '/' {
        trim_slashes_end(s, end - 1)
    } else {
        end
    }
}

/// The parent directory of a path: trailing separators are ignored, the
/// last component and its separator run are dropped, a lone relative
/// component has the empty parent, and a component directly under the
/// root keeps the leading '/'.
pub open spec fn parent_of(s: Seq<char>) -> Seq<char> {
    let e = trim_slashes_end(s, s.len() as int);
    if e == 0 {
        Seq::empty()
    } else {
        let k = last_index_before(s, e, '/');
        if k < 0 {
            Seq::empty()
        } else {
            let b = trim_slashes_end(s, k + 1);
            if b == 0 {
                seq!['/']
            } else {
                s.take(b)
            }
        }
    }
}

/// The canonical container path of a source image: everything up to the
/// last '.' with the canonical ".tx" extension in place of the old one.
/// A path without any '.' has no canonical form.
pub open spec fn spec_tx_path(s: Seq<char>) -> Option<Seq<char>> {
    let d = last_index_before(s, s.len() as int, '.');
    if d < 0 {
        Option::None
    } else {
        Option::Some(s.take(d) + ".tx"@)
    }
}

/// Whether the path already names a canonical container: it ends in the
/// canonical ".tx" extension.
pub open spec fn spec_is_canonical(s: Seq<char>) -> bool {
    s.len() >= 3 && s.skip(s.len() - 3) == ".tx"@
}

/// Law: a path without any bracket token expands to itself.
pub proof fn lemma_expand_no_tag(s: Seq<char>)
    requires
        !spec_has_tag(s),
    ensures
        expand_tags(s) == s,
{
    lemma_expand_from_no_tag(s, 0);
    assert(s.skip(0) =~= s);
}

proof fn lemma_expand_from_no_tag(s: Seq<char>, i: int)
    requires
        0 <= i <= s.len(),
        forall|j: int| 0 <= j < s.len() ==> s[j] != '<',
    ensures
        expand_tags_from(s, i) == s.skip(i),
    decreases s.len() - i,
{
    if i < s.len() {
        lemma_expand_from_no_tag(s, i + 1);
        assert(seq![s[i]] + s.skip(i + 1) =~= s.skip(i));
    } else {
        assert(s.skip(i) =~= Seq::<char>::empty());
    }
}

/// Index of the first '>' at or after `from`, or the character length of
/// the path where none follows.
fn find_close(s: &str, from: usize) -> (r: usize)
    requires
        from <= s@.len(),
    ensures
        r == first_close(s@, from as int),
{
    let n = s.unicode_len();
    let mut j = from;
    while j < n
        invariant
            from <= j <= n,
            n == s@.len(),
            forall|k: int| from <= k < j ==> s@[k] != '>',
        decreases n - j,
    {
        if s.get_char(j) == '>' {
            proof {
                lemma_first_close(s@, from as int);
            }
            return j;
        }
        j = j + 1;
    }
    proof {
        lemma_first_close(s@, from as int);
    }
    n
}

/// The path with every bracket-delimited token span replaced by one '*'
/// wildcard; a path without tokens comes back unchanged.
pub fn tags_to_pattern(filepath: String) -> (r: String)
    ensures
        r@ == expand_tags(filepath@),
{
    let s = filepath.as_str();
    let n = s.unicode_len();
    let mut out = String::new();
    let mut i: usize = 0;
    while i < n
        invariant
            i <= n,
            n == s@.len(),
            s@ == filepath@,
            out@ + expand_tags_from(s@, i as int) == expand_tags(filepath@),
        decreases n - i,
    {
        let c = s.get_char(i);
        if c == '<' {
            let j = find_close(s, i + 1);
            if j < n {
                let ghost prev = out@;
                out.append("*");
                proof {
                    reveal_strlit("*");
                    lemma_first_close(s@, i as int + 1);
                    assert("*"@ =~= seq!['*']);
                    assert(expand_tags_from(s@, i as int) == seq!['*'] + expand_tags_from(
                        s@,
                        j as int + 1,
                    ));
                    assert((prev + seq!['*']) + expand_tags_from(s@, j as int + 1) =~= prev + (
                    seq!['*'] + expand_tags_from(s@, j as int + 1)));
                }
                i = j + 1;
            } else {
                let rest = s.substring_char(i, n);
                let ghost prev = out@;
                out.append(rest);
                proof {
                    assert(rest@ =~= s@.skip(i as int));
                    assert(expand_tags_from(s@, i as int) == s@.skip(i as int));
                    assert(expand_tags_from(s@, n as int) =~= Seq::<char>::empty());
                    assert((prev + s@.skip(i as int)) + Seq::<char>::empty() =~= prev + s@.skip(
                        i as int,
                    ));
                }
                i = n;
            }
        } else {
            let piece = s.substring_char(i, i + 1);
            let ghost prev = out@;
            out.append(piece);
            proof {
                assert(piece@ =~= seq![s@[i as int]]);
                assert(expand_tags_from(s@, i as int) == seq![s@[i as int]] + expand_tags_from(
                    s@,
                    i as int + 1,
                ));
                assert((prev + seq![s@[i as int]]) + expand_tags_from(s@, i as int + 1) =~= prev
                    + (seq![s@[i as int]] + expand_tags_from(s@, i as int + 1)));
            }
            i = i + 1;
        }
    }
    proof {
        assert(expand_tags_from(s@, n as int) =~= Seq::<char>::empty());
        assert(out@ + Seq::<char>::empty() =~= out@);
    }
    out
}

/// Largest index below `end` holding the character `c`, or nothing.
fn last_index_of(s: &str, end: usize, c: char) -> (r: Option<usize>)
    requires
        end <= s@.len(),
    ensures
        match r {
            Option::Some(k) => k == last_index_before(s@, end as int, c) && k < end,
            Option::None => last_index_before(s@, end as int, c) == -1,
        },
{
    let mut e = end;
    while e > 0
        invariant
            e <= end,
            end <= s@.len(),
            last_index_before(s@, end as int, c) == last_index_before(s@, e as int, c),
        decreases e,
    {
        if s.get_char(e - 1) == c {
            return Option::Some(e - 1);
        }
        e = e - 1;
    }
    Option::None
}

/// Length of the prefix `s[..end]` once its trailing '/' marks are
/// removed.
fn trim_trailing_slashes(s: &str, end: usize) -> (e: usize)
    requires
        end <= s@.len(),
    ensures
        e == trim_slashes_end(s@, end as int),
        e <= end,
{
    let mut e = end;
    while e > 0
        invariant
            e <= end,
            end <= s@.len(),
            trim_slashes_end(s@, end as int) == trim_slashes_end(s@, e as int),
        decreases e,
    {
        if s.get_char(e - 1) != '/' {
            return e;
        }
        e = e - 1;
    }
    0
}

/// The parent directory of a path, or the empty string where the path is
/// empty, is only a root, or holds a single relative component.
pub fn parent_folder(filepath: String) -> (r: String)
    ensures
        r@ == parent_of(filepath@),
{
    let s = filepath.as_str();
    let n = s.unicode_len();
    let e = trim_trailing_slashes(s, n);
    if e == 0 {
        return String::new();
    }
    match last_index_of(s, e, '/') {
        Option::None => String::new(),
        Option::Some(k) => {
            let b = trim_trailing_slashes(s, k + 1);
            if b == 0 {
                let root = String::from_str("/");
                proof {
                    reveal_strlit("/");
                    assert(root@ =~= seq!['/']);
                }
                root
            } else {
                let p = s.substring_char(0, b);
                proof {
                    assert(p@ =~= s@.take(b as int));
                }
                String::from_str(p)
            }
        },
    }
}

/// The canonical container path for a source path: the extension after
/// the last '.' replaced by the canonical ".tx".  A path without any '.'
/// has none.
pub fn tx_path(path: &str) -> (r: Option<String>)
    ensures
        match r {
            Option::Some(t) => spec_tx_path(path@) == Option::Some(t@),
            Option::None => spec_tx_path(path@) is None,
        },
{
    let n = path.unicode_len();
    match last_index_of(path, n, '.') {
        Option::None => Option::None,
        Option::Some(d) => {
            let stem = path.substring_char(0, d);
            let mut out = String::from_str(stem);
            out.append(".tx");
            proof {
                assert(stem@ =~= path@.take(d as int));
            }
            Option::Some(out)
        },
    }
}

/// Whether the path already names a canonical container.
pub fn is_canonical(path: &str) -> (r: bool)
    ensures
        r == spec_is_canonical(path@),
{
    let n = path.unicode_len();
    if n < 3 {
        return false;
    }
    let c0 = path.get_char(n - 3);
    let c1 = path.get_char(n - 2);
    let c2 = path.get_char(n - 1);
    let r = c0 == '.' && c1 == 't' && c2 == 'x';
    proof {
        reveal_strlit(".tx");
        if r {
            assert(path@.skip(n as int - 3) =~= ".tx"@);
        } else {
            if path@.skip(n as int - 3) == ".tx"@ {
                assert(path@.skip(n as int - 3)[0] == '.');
                assert(path@.skip(n as int - 3)[1] == 't');
                assert(path@.skip(n as int - 3)[2] == 'x');
                assert(false);
            }
        }
    }
    r
}

/// Whether the path is a template holding a bracket-delimited token.
pub fn has_tag(path: &str) -> (r: bool)
    ensures
        r == spec_has_tag(path@),
{
    let n = path.unicode_len();
    let mut i: usize = 0;
    while i < n
        invariant
            i <= n,
            n == path@.len(),
            forall|j: int| 0 <= j < i ==> path@[j] != '<',
        decreases n - i,
    {
        if path.get_char(i) == '<' {
            proof {
                assert(path@[i as int] == '<');
                assert(spec_has_tag(path@));
            }
            return true;
        }
        i = i + 1;
    }
    false
}

} // verus!
