//! Text helpers: trailing-slash trimming and `env:` key references.

use vstd::prelude::*;
use vstd::string::*;

verus! {

/// `s` with every trailing `/` removed.
pub open spec fn trim_trailing_slashes(s: Seq<char>) -> Seq<char>
    decreases s.len(),
{
    if s.len() > 0 && s.last() == '/' {
        trim_trailing_slashes(s.drop_last())
    } else {
        s
    }
}

/// Removing trailing slashes leaves a prefix of the input that does not end in `/`.
pub proof fn lemma_trim_trailing_slashes(s: Seq<char>)
    ensures
        trim_trailing_slashes(s).is_prefix_of(s),
        trim_trailing_slashes(s).len() == 0 || trim_trailing_slashes(s).last() != '/',
        forall|i: int|
            trim_trailing_slashes(s).len() <= i < s.len() ==> s[i] == '/',
    decreases s.len(),
{
    if s.len() > 0 && s.last() == '/' {
        let t = s.drop_last();
        lemma_trim_trailing_slashes(t);
        assert forall|i: int| trim_trailing_slashes(s).len() <= i < s.len() implies s[i] == '/' by {
            if i < t.len() {
                assert(t[i] == s[i]);
            }
        }
    }
}

/// Returns `s` without its trailing `/` characters.
pub fn trim_end_slashes(s: &str) -> (res: String)
    ensures
        res@ == trim_trailing_slashes(s@),
{
    let n = s.unicode_len();
    let mut end: usize = n;
    assert(s@.take(n as int) =~= s@);
    while end > 0 && s.get_char(end - 1) == '/'
        invariant
            n == s@.len(),
            end <= n,
            trim_trailing_slashes(s@.take(end as int)) == trim_trailing_slashes(s@),
        decreases end,
    {
        assert(s@.take(end as int).drop_last() =~= s@.take(end - 1));
        end = end - 1;
    }
    let kept = s.substring_char(0, end);
    assert(kept@ =~= s@.take(end as int));
    String::from_str(kept)
}

/// A key of the form `env:NAME`, compared case-insensitively on the
/// `env:` part, names an environment variable.
pub open spec fn is_env_reference(key: Seq<char>) -> bool {
    &&& key.len() >= 4
    &&& (key[0] == 'e' || key[0] == 'E')
    &&& (key[1] == 'n' || key[1] == 'N')
    &&& (key[2] == 'v' || key[2] == 'V')
    &&& key[3] == ':'
}

/// The variable name of an `env:NAME` reference.
pub open spec fn env_reference_name(key: Seq<char>) -> Seq<char> {
    key.skip(4)
}

/// Returns the variable name when `key` is an `env:` reference.
pub fn env_var_name(key: &str) -> (res: Option<String>)
    ensures
        res is Some <==> is_env_reference(key@),
        res matches Some(name) ==> name@ == env_reference_name(key@),
{
    let n = key.unicode_len();
    if n < 4 {
        return None;
    }
    let c0 = key.get_char(0);
    let c1 = key.get_char(1);
    let c2 = key.get_char(2);
    let c3 = key.get_char(3);
    if (c0 == 'e' || c0 == 'E') && (c1 == 'n' || c1 == 'N') && (c2 == 'v' || c2 == 'V') && c3
        == ':' {
        let rest = key.substring_char(4, n);
        assert(rest@ =~= key@.skip(4));
        Some(String::from_str(rest))
    } else {
        None
    }
}

} // verus!
