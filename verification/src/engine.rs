//! The matching engine: a `path_tree::PathTree` that files handler indices
//! under route keys. What is stated of it here is taken from its source and
//! not proved.

use path_tree::PathTree;
use vstd::prelude::*;
use vstd::utf8::is_ascii_chars;
use crate::path::trim_start_slashes;

verus! {

/// `path_tree::PathTree`, carried as a value that is not looked into.
#[verifier::external_type_specification]
#[verifier::external_body]
#[verifier::reject_recursive_types(T)]
pub struct ExPathTree<T>(PathTree<T>);

/// What `tree` files: for each of its nodes that holds a value, the pattern
/// under which the value was put there, without the slashes at its start,
/// and with it the value.
pub uninterp spec fn tree_filed(tree: PathTree<usize>) -> Map<Seq<char>, usize>;

/// Whether `c` begins a parameter of a pattern.
pub open spec fn is_marker(c: char) -> bool {
    c == ':' || c == '*'
}

/// Whether the engine takes `pattern`: one without a parameter is filed
/// whole, whatever it holds, and one with a parameter has to be ASCII.
pub open spec fn acceptable(pattern: Seq<char>) -> bool {
    is_ascii_chars(pattern) || forall|i: int| 0 <= i < pattern.len() ==> !is_marker(#[trigger] pattern[i])
}

/// `PathTree::new`: a tree with a root node only, which holds no value, so
/// that the tree files nothing.
#[verifier::external_body]
pub(crate) fn tree_new() -> (tree: PathTree<usize>)
    ensures
        forall|pattern: Seq<char>| !tree_filed(tree).contains_key(pattern),
{
    PathTree::new()
}

/// `PathTree::insert`: drops the slashes at the start of `pattern`, walks
/// from the root to the node that the rest leads to, adding the nodes that
/// are missing, and puts `value` there with the names of the pattern's
/// parameters. No other node changes what it holds. So the tree files
/// `value` under the pattern, and whatever else it files it filed before.
///
/// Up to each `:` and `*` the engine cuts the pattern at character counts
/// taken as byte offsets, and panics where the two differ: a pattern that
/// holds one of them has to be ASCII.
#[verifier::external_body]
pub(crate) fn tree_insert(tree: &mut PathTree<usize>, pattern: &str, value: usize)
    requires
        acceptable(pattern@),
    ensures
        tree_filed(*final(tree)).contains_pair(trim_start_slashes(pattern@), value),
        forall|other: Seq<char>|
            other != trim_start_slashes(pattern@) && #[trigger] tree_filed(*final(tree)).contains_key(
                other,
            ) ==> tree_filed(*old(tree)).contains_pair(other, tree_filed(*final(tree))[other]),
{
    tree.insert(pattern, value);
}

/// The text of each pair of `params`.
pub open spec fn param_views(params: Seq<(String, String)>) -> Seq<(Seq<char>, Seq<char>)> {
    params.map_values(|pair: (String, String)| (pair.0@, pair.1@))
}

/// What `tree` matches to `path`: the value of the node that matches, with
/// the parameters that the match captured as pairs of name and text, or
/// nothing where no node matches or the one that does holds no value.
pub uninterp spec fn tree_match(tree: PathTree<usize>, path: Seq<char>) -> Option<
    (usize, Seq<(Seq<char>, Seq<char>)>),
>;

/// `PathTree::find`: walks the tree along `path` and reads the node that it
/// ends at, without changing anything, so that what comes back depends on
/// the tree and on `path` alone: it is `tree_match` of the two. A value that
/// is found is one that a node of the tree holds, and so one that the tree
/// files.
#[verifier::external_body]
pub(crate) fn tree_find(tree: &PathTree<usize>, path: &str) -> (found: Option<
    (usize, Vec<(String, String)>),
>)
    ensures
        tree_match(*tree, path@) == match found {
            Some(hit) => Some((hit.0, param_views(hit.1@))),
            None => None,
        },
        found matches Some(hit) ==> tree_filed(*tree).contains_value(hit.0),
{
    tree.find(path).map(
        |(value, params)|
            (*value, params.iter().map(|(name, text)| (name.to_string(), text.to_string())).collect()),
    )
}

} // verus!
