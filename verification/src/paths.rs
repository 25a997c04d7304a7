//! Unix paths as text, and the directories of the user.
use crate::text;
use vstd::prelude::*;

verus! {

/// The path that leads from `base` to `leaf`: an absolute `leaf` stands alone, and
/// a slash separates the two unless `base` is empty or ends with one.
pub open spec fn joined_path(base: Seq<char>, leaf: Seq<char>) -> Seq<char> {
    if leaf.len() > 0 && leaf[0] == '/' {
        leaf
    } else if base.len() == 0 || base.last() == '/' {
        base + leaf
    } else {
        base.push('/') + leaf
    }
}

/// See [`joined_path`].
pub fn join(base: &str, leaf: &str) -> (r: String)
    ensures
        r@ == joined_path(base@, leaf@),
{
    if leaf.unicode_len() > 0 && leaf.get_char(0) == '/' {
        return text::owned(leaf);
    }
    let mut r = text::owned(base);
    let n: usize = base.unicode_len();
    if n > 0 && base.get_char(n - 1) != '/' {
        r.push('/');
    }
    r.append(leaf);
    r
}

/// `dirs::audio_dir` gives the user's music directory, if the system names one.
///
/// Which one rests on the environment; nothing is stated of it.
#[verifier::external_body]
pub(crate) fn audio_dir() -> (r: Option<String>) {
    dirs::audio_dir().map(|p| p.to_string_lossy().into_owned())
}

/// `dirs::home_dir` gives the user's home directory, if the system names one.
///
/// Which one rests on the environment; nothing is stated of it.
#[verifier::external_body]
pub(crate) fn home_dir() -> (r: Option<String>) {
    dirs::home_dir().map(|p| p.to_string_lossy().into_owned())
}

/// `dirs::config_dir` gives the user's configuration directory, if the system
/// names one.
///
/// Which one rests on the environment; nothing is stated of it.
#[verifier::external_body]
pub(crate) fn config_dir() -> (r: Option<String>) {
    dirs::config_dir().map(|p| p.to_string_lossy().into_owned())
}

// ---------------------------------------------------------------------------
// Laws
// ---------------------------------------------------------------------------
/// Whether a path starts at the root.
pub open spec fn starts_at_root(path: Seq<char>) -> bool {
    path.len() > 0 && path[0] == '/'
}

/// A relative leaf comes behind its base, with just one slash between them.
pub proof fn leaves_lie_below_their_base(base: Seq<char>, leaf: Seq<char>)
    requires
        !starts_at_root(leaf),
        base.len() > 0,
    ensures
        base.last() != '/' ==> joined_path(base, leaf) == base + seq!['/'] + leaf,
        base.last() == '/' ==> joined_path(base, leaf) == base + leaf,
{
    assert(base.push('/') =~= base + seq!['/']);
}

/// An absolute leaf stands alone, and so does any leaf without a base.
pub proof fn absolute_leaves_stand_alone(base: Seq<char>, leaf: Seq<char>)
    ensures
        starts_at_root(leaf) ==> joined_path(base, leaf) == leaf,
        joined_path(Seq::empty(), leaf) == leaf,
{
    assert(Seq::<char>::empty() + leaf =~= leaf);
}

/// Joining three parts can begin at either end, unless the middle one is empty.
pub proof fn joining_is_associative(a: Seq<char>, b: Seq<char>, c: Seq<char>)
    requires
        b.len() > 0,
    ensures
        joined_path(joined_path(a, b), c) == joined_path(a, joined_path(b, c)),
{
    let left = joined_path(joined_path(a, b), c);
    let right = joined_path(a, joined_path(b, c));
    if !starts_at_root(c) {
        assert(left =~= right);
    }
}

} // verus!
