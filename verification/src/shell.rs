//! Shell-integration decisions: which rc file the user's shell reads, the
//! sourcing line that makes the shell load the alias file, and the
//! substring test that keeps appending that line idempotent.

use vstd::prelude::*;
use vstd::string::*;

use crate::grammar::views_of;
use crate::repo::has_name;
use crate::text::to_chars;
use crate::{Alias, AppError};

verus! {

/// Whether `s` ends with `suffix`.
pub open spec fn spec_ends_with(s: Seq<char>, suffix: Seq<char>) -> bool {
    s.len() >= suffix.len() && s.subrange(s.len() - suffix.len(), s.len() as int) == suffix
}

/// Whether `needle` occurs contiguously somewhere in `haystack`.
pub open spec fn spec_contains(haystack: Seq<char>, needle: Seq<char>) -> bool {
    exists|k: int|
        0 <= k <= haystack.len() - needle.len() && #[trigger] haystack.subrange(
            k,
            k + needle.len(),
        ) == needle
}

fn ends_with(s: &Vec<char>, suffix: &Vec<char>) -> (r: bool)
    ensures
        r == spec_ends_with(s@, suffix@),
{
    let n = s.len();
    let m = suffix.len();
    if m > n {
        return false;
    }
    let mut i: usize = 0;
    while i < m
        invariant
            i <= m <= n,
            n == s@.len(),
            m == suffix@.len(),
            forall|j: int| 0 <= j < i ==> s@[n - m + j] == suffix@[j],
        decreases m - i,
    {
        if s[n - m + i] != suffix[i] {
            proof {
                assert(s@.subrange(n as int - m, n as int)[i as int] != suffix@[i as int]);
            }
            return false;
        }
        i += 1;
    }
    proof {
        assert(s@.subrange(n as int - m, n as int) =~= suffix@);
    }
    true
}

/// Decide the shell's rc file from the `SHELL` value: a bash shell reads
/// `.bashrc`, a zsh shell `.zshrc`; any other shell is unsupported.
pub fn get_user_shell_config_file(shell: &str) -> (r: Result<String, AppError>)
    ensures
        match r {
            Ok(f) => (spec_ends_with(shell@, "bash"@) && f@ == ".bashrc"@) || (!spec_ends_with(
                shell@,
                "bash"@,
            ) && spec_ends_with(shell@, "zsh"@) && f@ == ".zshrc"@),
            Err(e) => e == AppError::UnsupportedShell && !spec_ends_with(shell@, "bash"@)
                && !spec_ends_with(shell@, "zsh"@),
        },
{
    let chars = to_chars(shell);
    let bash = to_chars("bash");
    let zsh = to_chars("zsh");
    if ends_with(&chars, &bash) {
        Ok(String::from_str(".bashrc"))
    } else if ends_with(&chars, &zsh) {
        Ok(String::from_str(".zshrc"))
    } else {
        Err(AppError::UnsupportedShell)
    }
}

/// The line that makes the shell source the alias file, with its leading
/// newline.
pub fn source_command(alias_path: &str) -> (r: String)
    ensures
        r@ == "\nsource \""@ + alias_path@ + "\""@,
{
    let mut out = String::from_str("\nsource \"");
    out.append(alias_path);
    out.append("\"");
    out
}

fn matches_at(h: &Vec<char>, n: &Vec<char>, k: usize) -> (r: bool)
    requires
        k + n@.len() <= h@.len(),
    ensures
        r == (h@.subrange(k as int, k as int + n@.len()) == n@),
{
    let m = n.len();
    let total = h.len();
    let mut i: usize = 0;
    while i < m
        invariant
            i <= m,
            m == n@.len(),
            total == h@.len(),
            k + m <= h@.len(),
            forall|j: int| 0 <= j < i ==> h@[k + j] == n@[j],
        decreases m - i,
    {
        if h[k + i] != n[i] {
            proof {
                assert(h@.subrange(k as int, k as int + n@.len())[i as int] != n@[i as int]);
            }
            return false;
        }
        i += 1;
    }
    proof {
        assert(h@.subrange(k as int, k as int + n@.len()) =~= n@);
    }
    true
}

/// Whether the text already holds the sourcing line: a plain contiguous
/// substring test, as the idempotence check of the rc-file setup.
pub fn contains_sub(haystack: &str, needle: &str) -> (r: bool)
    ensures
        r == spec_contains(haystack@, needle@),
{
    let h = to_chars(haystack);
    let n = to_chars(needle);
    if n.len() > h.len() {
        proof {
            assert(!spec_contains(haystack@, needle@));
        }
        return false;
    }
    if n.len() == 0 {
        proof {
            assert(spec_contains(haystack@, needle@)) by {
                let kk: int = 0;
                assert(haystack@.subrange(kk, kk + needle@.len()) =~= needle@);
            }
        }
        return true;
    }
    let last = h.len() - n.len();
    let mut k: usize = 0;
    while k <= last
        invariant
            k <= last + 1,
            n@.len() >= 1,
            h@.len() <= usize::MAX,
            last == h@.len() - n@.len(),
            h@ == haystack@,
            n@ == needle@,
            forall|j: int| 0 <= j < k ==> #[trigger] h@.subrange(j, j + n@.len()) != n@,
        decreases last + 1 - k,
    {
        if matches_at(&h, &n, k) {
            proof {
                assert(spec_contains(haystack@, needle@));
            }
            return true;
        }
        k += 1;
    }
    proof {
        assert(!spec_contains(haystack@, needle@));
    }
    false
}

/// The index of the first alias with the given name, if any: the lookup
/// behind copying an alias name.
pub fn find_alias(aliases: &Vec<Alias>, name: &String) -> (r: Option<usize>)
    ensures
        match r {
            Some(i) => i < aliases@.len() && views_of(aliases@)[i as int].name == name@ && (forall|
                j: int,
            |
                0 <= j < i ==> (#[trigger] views_of(aliases@)[j]).name != name@),
            None => !has_name(views_of(aliases@), name@),
        },
{
    let ghost vs = views_of(aliases@);
    let mut i: usize = 0;
    while i < aliases.len()
        invariant
            i <= aliases@.len(),
            vs == views_of(aliases@),
            forall|j: int| 0 <= j < i ==> (#[trigger] vs[j]).name != name@,
        decreases aliases@.len() - i,
    {
        proof {
            assert(vs[i as int] == aliases@[i as int]@);
        }
        if aliases[i].name.eq(name) {
            return Some(i);
        }
        i += 1;
    }
    proof {
        assert(!has_name(vs, name@));
    }
    None
}

} // verus!
