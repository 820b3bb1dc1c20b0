//! The template compiler: a parsed template document — a nested value of
//! mappings, sequences and strings — is compiled into the question tree,
//! resolving per-node and inherited option lists.

use vstd::prelude::*;

verus! {

use crate::nodes::{LeafNodeType, ListV, NodeV, StatefulList};
use crate::tree::{Tree, TreeV};

/// One plain value of a parsed template document. Mappings keep their
/// entries in document order; anything that is neither a string, a sequence
/// nor a mapping is carried as `Other` and skipped by the compiler.
pub enum ConfigValue {
    Str(String),
    List(Vec<ConfigValue>),
    Mapping(Vec<(ConfigValue, ConfigValue)>),
    Other,
}

/// Why a template was rejected.
#[derive(Clone, Copy, Debug, PartialEq, Eq, Structural)]
pub enum TemplateError {
    /// The document is no YAML at all.
    Unparseable,
    /// The document's top level is not a mapping.
    NotAMapping,
    /// The top level has no `project` mapping.
    MissingProject,
    /// An entry of an `options` or `childoptions` sequence is not a string.
    InvalidOption,
}

/// Whether a mapping entry's key is the given string.
pub open spec fn entry_key_is(e: (ConfigValue, ConfigValue), key: Seq<char>) -> bool {
    e.0 matches ConfigValue::Str(s) && s@ == key
}

/// The position of the first entry with the given string key, or -1.
pub open spec fn map_get_idx(entries: Seq<(ConfigValue, ConfigValue)>, key: Seq<char>) -> int
    decreases entries.len(),
{
    if entries.len() == 0 {
        -1
    } else if entry_key_is(entries[0], key) {
        0
    } else {
        let r = map_get_idx(entries.drop_first(), key);
        if r < 0 {
            -1
        } else {
            r + 1
        }
    }
}

/// The value of the first entry with the given string key, if any.
pub open spec fn map_get(entries: Seq<(ConfigValue, ConfigValue)>, key: Seq<char>) -> Option<
    ConfigValue,
> {
    let i = map_get_idx(entries, key);
    if 0 <= i < entries.len() {
        Some(entries[i].1)
    } else {
        None
    }
}

/// What the key scan returns: either a first matching position, or no
/// position matches at all.
pub proof fn lemma_map_get_idx(entries: Seq<(ConfigValue, ConfigValue)>, key: Seq<char>)
    ensures
        map_get_idx(entries, key) >= 0 ==> 0 <= map_get_idx(entries, key) < entries.len()
            && entry_key_is(entries[map_get_idx(entries, key)], key),
        map_get_idx(entries, key) < 0 ==> forall|j: int|
            0 <= j < entries.len() ==> !entry_key_is(#[trigger] entries[j], key),
        forall|j: int|
            0 <= j < map_get_idx(entries, key) ==> !entry_key_is(#[trigger] entries[j], key),
    decreases entries.len(),
{
    if entries.len() > 0 && !entry_key_is(entries[0], key) {
        lemma_map_get_idx(entries.drop_first(), key);
        assert(forall|j: int|
            0 <= j < entries.drop_first().len() ==> #[trigger] entries.drop_first()[j] == entries[
                j + 1
            ]);
        assert forall|j: int|
            0 <= j < map_get_idx(entries, key) implies !entry_key_is(
            #[trigger] entries[j],
            key,
        ) by {
            if j > 0 {
                assert(entries.drop_first()[j - 1] == entries[j]);
            }
        }
        if map_get_idx(entries, key) < 0 {
            assert forall|j: int|
                0 <= j < entries.len() implies !entry_key_is(#[trigger] entries[j], key) by {
                if j > 0 {
                    assert(entries.drop_first()[j - 1] == entries[j]);
                }
            }
        }
    }
}

/// The labels of an option sequence: every entry must be a string, else the
/// whole sequence is rejected.
pub open spec fn options_of(vals: Seq<ConfigValue>) -> Result<Seq<Seq<char>>, TemplateError>
    decreases vals.len(),
{
    if vals.len() == 0 {
        Ok(Seq::empty())
    } else {
        match vals[0] {
            ConfigValue::Str(s) => match options_of(vals.drop_first()) {
                Ok(rest) => Ok(seq![s@] + rest),
                Err(e) => Err(e),
            },
            _ => Err(TemplateError::InvalidOption),
        }
    }
}

/// The inherited options a mapping hands to its children: its
/// `childoptions` sequence, if it has one.
pub open spec fn child_options_of(entries: Seq<(ConfigValue, ConfigValue)>) -> Result<
    Option<Seq<Seq<char>>>,
    TemplateError,
> {
    match map_get(entries, "childoptions"@) {
        Some(ConfigValue::List(v)) => match options_of(v@) {
            Ok(o) => Ok(Some(o)),
            Err(e) => Err(e),
        },
        _ => Ok(None),
    }
}

/// Inherited child-options come before the node's own declared options;
/// both lists keep their order and duplicates.
pub open spec fn merged_options(own: Option<Seq<Seq<char>>>, co: Option<Seq<Seq<char>>>) -> Option<
    Seq<Seq<char>>,
> {
    match (own, co) {
        (Option::None, Option::None) => None,
        (Option::Some(o), Option::None) => Some(o),
        (Option::None, Option::Some(c)) => Some(c),
        (Option::Some(o), Option::Some(c)) => Some(c + o),
    }
}

/// A fresh choice list over the given labels: nothing selected, the first
/// entry highlighted, single-select.
pub open spec fn select_items(labels: Seq<Seq<char>>) -> ListV {
    ListV {
        items: labels.map_values(|l: Seq<char>| (l, false)),
        selected: 0,
        multiselect: false,
    }
}

/// The node a mapping-valued child compiles to, derived from its own
/// `options` key and the options inherited from its parent: any option list
/// makes it a choice node, a scalar `options` string makes it a pre-filled
/// free-text node, and otherwise it is a plain label.
pub open spec fn node_type_spec(
    entries: Seq<(ConfigValue, ConfigValue)>,
    name: Seq<char>,
    co: Option<Seq<Seq<char>>>,
) -> Result<NodeV, TemplateError> {
    let ov = map_get(entries, "options"@);
    let own: Result<Option<Seq<Seq<char>>>, TemplateError> = match ov {
        Some(ConfigValue::List(v)) => match options_of(v@) {
            Ok(o) => Ok(Some(o)),
            Err(e) => Err(e),
        },
        _ => Ok(None),
    };
    match own {
        Err(e) => Err(e),
        Ok(own) => match merged_options(own, co) {
            Some(labels) => Ok(NodeV::Select { name, options: select_items(labels) }),
            None => match ov {
                Some(ConfigValue::Str(s)) => Ok(NodeV::TextInput { name, input: s@ }),
                _ => Ok(NodeV::Text { name }),
            },
        },
    }
}

/// The descendant forest of a node described by the given mapping: its
/// `children` entries, each child's subtree at depth `d`, joined in order.
pub open spec fn walk_spec(entries: Seq<(ConfigValue, ConfigValue)>, d: nat) -> Result<
    Seq<(nat, NodeV)>,
    TemplateError,
>
    decreases entries, 1int,
{
    match child_options_of(entries) {
        Err(e) => Err(e),
        Ok(co) => {
            let ci = map_get_idx(entries, "children"@);
            if 0 <= ci < entries.len() {
                match entries[ci].1 {
                    ConfigValue::List(cs) => visit_spec(cs@, co, d),
                    _ => Ok(Seq::empty()),
                }
            } else {
                Ok(Seq::empty())
            }
        },
    }
}

/// The subtrees of a run of child entries, in order; the first error stops
/// the walk.
pub open spec fn visit_spec(cs: Seq<ConfigValue>, co: Option<Seq<Seq<char>>>, d: nat) -> Result<
    Seq<(nat, NodeV)>,
    TemplateError,
>
    decreases cs, 0int,
{
    if cs.len() == 0 {
        Ok(Seq::empty())
    } else {
        match child_subtree_spec(cs[0], co, d) {
            Err(e) => Err(e),
            Ok(sub) => match visit_spec(cs.drop_first(), co, d) {
                Err(e) => Err(e),
                Ok(rest) => Ok(sub + rest),
            },
        }
    }
}

/// The subtree one child entry compiles to. A bare string becomes a leaf —
/// a choice node when the parent supplied child-options, else a plain
/// label. A mapping with exactly one entry, a string key and a mapping
/// value, becomes a node typed by [`node_type_spec`] followed by its own
/// descendants. Any other entry is silently skipped.
pub open spec fn child_subtree_spec(c: ConfigValue, co: Option<Seq<Seq<char>>>, d: nat) -> Result<
    Seq<(nat, NodeV)>,
    TemplateError,
>
    decreases c, 2int,
{
    match c {
        ConfigValue::Str(s) => match co {
            Some(opts) => Ok(seq![(d, NodeV::Select { name: s@, options: select_items(opts) })]),
            None => Ok(seq![(d, NodeV::Text { name: s@ })]),
        },
        ConfigValue::Mapping(m) => {
            if m@.len() == 1 {
                match m@[0].0 {
                    ConfigValue::Str(k) => match m@[0].1 {
                        ConfigValue::Mapping(inner) => {
                            match node_type_spec(inner@, k@, co) {
                                Err(e) => Err(e),
                                Ok(n) => match walk_spec(inner@, d + 1) {
                                    Err(e) => Err(e),
                                    Ok(desc) => Ok(seq![(d, n)] + desc),
                                },
                            }
                        },
                        _ => Ok(Seq::empty()),
                    },
                    _ => Ok(Seq::empty()),
                }
            } else {
                Ok(Seq::empty())
            }
        },
        _ => Ok(Seq::empty()),
    }
}

/// The pre-filled default location of the root: the project's
/// `default_location` string, or the home-directory placeholder.
pub open spec fn default_location_of(proj: Seq<(ConfigValue, ConfigValue)>) -> Seq<char> {
    match map_get(proj, "default_location"@) {
        Some(ConfigValue::Str(s)) => s@,
        _ => "~/"@,
    }
}

/// What a whole template compiles to: the top level must be a mapping with
/// a `project` mapping inside; the root is a free-text node named
/// `Location`, pre-filled with the default location, and the project's
/// descendant forest hangs below it.
pub open spec fn compile_spec(c: ConfigValue) -> Result<TreeV, TemplateError> {
    match c {
        ConfigValue::Mapping(top) => match map_get(top@, "project"@) {
            Some(ConfigValue::Mapping(proj)) => {
                match walk_spec(proj@, 1) {
                    Ok(forest) => Ok(
                        TreeV {
                            depths: seq![0nat] + forest.map_values(|p: (nat, NodeV)| p.0),
                            nodes: seq![
                                NodeV::TextInput {
                                    name: "Location"@,
                                    input: default_location_of(proj@),
                                },
                            ] + forest.map_values(|p: (nat, NodeV)| p.1),
                        },
                    ),
                    Err(e) => Err(e),
                }
            },
            _ => Err(TemplateError::MissingProject),
        },
        _ => Err(TemplateError::NotAMapping),
    }
}

/// A parsed template document, as [`parse_project_yaml`] sees it. Parsing
/// is a function of the document text alone.
pub uninterp spec fn parse_of(s: Seq<char>) -> Option<ConfigValue>;

#[verifier::external_type_specification]
#[verifier::external_body]
pub struct ExYamlValue(serde_yaml::Value);

/// Relies on `serde_yaml::from_str`: one YAML document parses to one value
/// tree, deterministically; a malformed document (duplicate mapping keys
/// included) is rejected.
#[verifier::external_body]
fn parse_template(s: &str) -> (r: Option<ConfigValue>)
    ensures
        r == parse_of(s@),
{
    match serde_yaml::from_str::<serde_yaml::Value>(s) {
        Ok(v) => Some(config_of_value(&v)),
        Err(_) => None,
    }
}

/// Relies on `serde_yaml::Value`'s public variants: each string, sequence
/// and mapping is carried over entry by entry, mappings in their document
/// order; every other variant (null, booleans, numbers, tagged values) is
/// carried as `Other`.
#[verifier::external_body]
fn config_of_value(v: &serde_yaml::Value) -> ConfigValue {
    match v {
        serde_yaml::Value::String(s) => ConfigValue::Str(s.clone()),
        serde_yaml::Value::Sequence(xs) => ConfigValue::List(
            xs.iter().map(config_of_value).collect(),
        ),
        serde_yaml::Value::Mapping(m) => ConfigValue::Mapping(
            m.iter().map(|(k, w)| (config_of_value(k), config_of_value(w))).collect(),
        ),
        _ => ConfigValue::Other,
    }
}

/// The value of the first entry with the given string key, if any.
fn lookup<'a>(entries: &'a Vec<(ConfigValue, ConfigValue)>, key: &str) -> (r: Option<
    &'a ConfigValue,
>)
    ensures
        match map_get(entries@, key@) {
            Some(v) => r matches Some(x) && *x == v,
            None => r is None,
        },
{
    let keystr = key.to_owned();
    let mut i: usize = 0;
    while i < entries.len()
        invariant
            i <= entries@.len(),
            keystr@ == key@,
            forall|j: int| 0 <= j < i ==> !entry_key_is(#[trigger] entries@[j], key@),
        decreases entries@.len() - i,
    {
        let hit = match &entries[i].0 {
            ConfigValue::Str(s) => keystr.eq(s),
            _ => false,
        };
        if hit {
            proof {
                lemma_map_get_idx(entries@, key@);
                assert(map_get_idx(entries@, key@) == i);
            }
            return Some(&entries[i].1);
        }
        i = i + 1;
    }
    proof {
        lemma_map_get_idx(entries@, key@);
    }
    None
}

/// The labels of an option sequence from position `i` on; a non-string
/// entry rejects the whole sequence.
fn options_from(vals: &Vec<ConfigValue>, i: usize) -> (r: Result<Vec<String>, TemplateError>)
    requires
        i <= vals@.len(),
    ensures
        match options_of(vals@.skip(i as int)) {
            Ok(labels) => r matches Ok(v) && v@.map_values(|s: String| s@) == labels,
            Err(e) => r matches Err(e2) && e2 == e,
        },
    decreases vals@.len() - i,
{
    if i == vals.len() {
        let out: Vec<String> = Vec::new();
        proof {
            assert(vals@.skip(i as int) =~= Seq::<ConfigValue>::empty());
            assert(out@.map_values(|s: String| s@) =~= Seq::<Seq<char>>::empty());
        }
        return Ok(out);
    }
    match &vals[i] {
        ConfigValue::Str(s) => {
            proof {
                assert(vals@.skip(i as int)[0] == vals@[i as int]);
                assert(vals@.skip(i as int).drop_first() =~= vals@.skip(i + 1));
            }
            match options_from(vals, i + 1) {
                Ok(mut rest) => {
                    rest.insert(0, s.clone());
                    proof {
                        match options_of(vals@.skip(i + 1)) {
                            Ok(tail) => {
                                assert(rest@.map_values(|t: String| t@) =~= seq![s@] + tail);
                            }
                            Err(_) => {}
                        }
                    }
                    Ok(rest)
                }
                Err(e) => Err(e),
            }
        }
        _ => {
            proof {
                assert(vals@.skip(i as int)[0] == vals@[i as int]);
            }
            Err(TemplateError::InvalidOption)
        }
    }
}

/// A choice node over the given labels, nothing selected yet.
fn make_select(name: &str, labels: &Vec<String>) -> (r: LeafNodeType)
    ensures
        r@ == (NodeV::Select {
            name: name@,
            options: select_items(labels@.map_values(|s: String| s@)),
        }),
{
    let mut items: Vec<(String, bool)> = Vec::new();
    let mut k: usize = 0;
    while k < labels.len()
        invariant
            k <= labels@.len(),
            items@.len() == k,
            forall|j: int| 0 <= j < k ==> #[trigger] items@[j] == (labels@[j], false),
        decreases labels@.len() - k,
    {
        items.push((labels[k].clone(), false));
        k = k + 1;
    }
    let options = StatefulList::with_items(items, false);
    proof {
        assert(options@.items =~= select_items(labels@.map_values(|s: String| s@)).items);
        assert(options@ =~= select_items(labels@.map_values(|s: String| s@)));
    }
    LeafNodeType::Select { name: name.to_owned(), options }
}

/// The labels a list of owned strings stands for.
pub open spec fn opts_view(o: Option<Vec<String>>) -> Option<Seq<Seq<char>>> {
    match o {
        Some(v) => Some(v@.map_values(|s: String| s@)),
        None => None,
    }
}

/// The node a mapping-valued child compiles to (see [`node_type_spec`]).
fn node_type_exec(
    entries: &Vec<(ConfigValue, ConfigValue)>,
    name: &str,
    child_options: &Option<Vec<String>>,
) -> (r: Result<LeafNodeType, TemplateError>)
    ensures
        match node_type_spec(entries@, name@, opts_view(*child_options)) {
            Ok(n) => r matches Ok(node) && node@ == n,
            Err(e) => r matches Err(e2) && e2 == e,
        },
{
    let ghost co_v = opts_view(*child_options);
    let ov = lookup(entries, "options");
    let own: Option<Vec<String>> = match ov {
        Some(ConfigValue::List(v)) => {
            proof {
                assert(v@.skip(0) =~= v@);
            }
            match options_from(v, 0) {
                Ok(o) => Some(o),
                Err(e) => {
                    return Err(e);
                }
            }
        }
        _ => None,
    };
    let ghost own_v = opts_view(own);
    let merged: Option<Vec<String>> = match (own, child_options) {
        (None, None) => None,
        (Some(o), None) => Some(o),
        (None, Some(co)) => Some(clone_strings(co)),
        (Some(o), Some(co)) => {
            let mut m = clone_strings(co);
            let mut k: usize = 0;
            while k < o.len()
                invariant
                    k <= o@.len(),
                    m@.len() == co@.len() + k,
                    forall|j: int| 0 <= j < co@.len() ==> #[trigger] m@[j] == co@[j],
                    forall|j: int| 0 <= j < k ==> m@[co@.len() + j] == #[trigger] o@[j],
                decreases o@.len() - k,
            {
                m.push(o[k].clone());
                k = k + 1;
            }
            proof {
                assert(m@ =~= co@ + o@);
                assert(m@.map_values(|s: String| s@) =~= co@.map_values(|s: String| s@)
                    + o@.map_values(|s: String| s@));
            }
            Some(m)
        }
    };
    proof {
        assert(opts_view(merged) == merged_options(own_v, co_v));
    }
    match merged {
        Some(labels) => {
            let node = make_select(name, &labels);
            Ok(node)
        }
        None => match ov {
            Some(ConfigValue::Str(s)) => Ok(
                LeafNodeType::TextInput { name: name.to_owned(), input: s.clone() },
            ),
            _ => Ok(LeafNodeType::Text { name: name.to_owned() }),
        },
    }
}

/// A copy of a label list.
fn clone_strings(v: &Vec<String>) -> (r: Vec<String>)
    ensures
        r@ == v@,
{
    let mut out: Vec<String> = Vec::new();
    let mut i: usize = 0;
    while i < v.len()
        invariant
            i <= v@.len(),
            out@.len() == i,
            forall|j: int| 0 <= j < i ==> #[trigger] out@[j] == v@[j],
        decreases v@.len() - i,
    {
        out.push(v[i].clone());
        i = i + 1;
    }
    proof {
        assert(out@ =~= v@);
    }
    out
}

/// Append the descendant forest of the node described by `entries` to the
/// tree, at the given depth (see [`walk_spec`]).
fn walk_exec(entries: &Vec<(ConfigValue, ConfigValue)>, depth: usize, tree: &mut Tree) -> (r:
    Result<(), TemplateError>)
    requires
        1 <= depth <= old(tree)@.depths.len(),
        old(tree)@.depths.len() == old(tree)@.nodes.len(),
    ensures
        final(tree)@.depths.len() == final(tree)@.nodes.len(),
        final(tree)@.depths.len() >= old(tree)@.depths.len(),
        match walk_spec(entries@, depth as nat) {
            Ok(forest) => r is Ok && final(tree)@.depths == old(tree)@.depths
                + forest.map_values(|p: (nat, NodeV)| p.0) && final(tree)@.nodes == old(
                tree,
            )@.nodes + forest.map_values(|p: (nat, NodeV)| p.1),
            Err(e) => r matches Err(e2) && e2 == e,
        },
    decreases entries@, 0int,
{
    let ghost pre = tree@;
    let co: Option<Vec<String>> = match lookup(entries, "childoptions") {
        Some(cv) => match cv {
            ConfigValue::List(vals) => {
                proof {
                    assert(vals@.skip(0) =~= vals@);
                }
                match options_from(vals, 0) {
                    Ok(o) => Some(o),
                    Err(e) => {
                        return Err(e);
                    }
                }
            }
            _ => None,
        },
        None => None,
    };
    proof {
        assert(child_options_of(entries@) == Ok::<_, TemplateError>(opts_view(co)));
    }
    match lookup(entries, "children") {
        Some(cv) => match cv {
            ConfigValue::List(cs) => {
                proof {
                    let ci = map_get_idx(entries@, "children"@);
                    lemma_map_get_idx(entries@, "children"@);
                    assert(decreases_to!(entries@ => entries@[ci]));
                    assert(decreases_to!(entries@[ci] => entries@[ci].1));
                    assert(entries@[ci].1 == ConfigValue::List(*cs));
                    assert(decreases_to!(entries@[ci].1 => entries@[ci].1->List_0));
                    assert(decreases_to!(*cs => cs@));
                    assert(cs@.skip(0) =~= cs@);
                }
                visit_exec(cs, 0, &co, depth, tree)
            }
            _ => {
                proof {
                    lemma_concat_empty_forest(pre);
                }
                Ok(())
            }
        },
        None => {
            proof {
                lemma_concat_empty_forest(pre);
            }
            Ok(())
        }
    }
}

/// Appending an empty forest changes nothing.
proof fn lemma_concat_empty_forest(t: TreeV)
    ensures
        t.depths + Seq::<(nat, NodeV)>::empty().map_values(|p: (nat, NodeV)| p.0) == t.depths,
        t.nodes + Seq::<(nat, NodeV)>::empty().map_values(|p: (nat, NodeV)| p.1) == t.nodes,
{
    assert(t.depths + Seq::<(nat, NodeV)>::empty().map_values(|p: (nat, NodeV)| p.0)
        =~= t.depths);
    assert(t.nodes + Seq::<(nat, NodeV)>::empty().map_values(|p: (nat, NodeV)| p.1) =~= t.nodes);
}

/// Append the subtrees of the child entries from position `i` on (see
/// [`visit_spec`]).
fn visit_exec(
    children: &Vec<ConfigValue>,
    i: usize,
    child_options: &Option<Vec<String>>,
    depth: usize,
    tree: &mut Tree,
) -> (r: Result<(), TemplateError>)
    requires
        i <= children@.len(),
        1 <= depth <= old(tree)@.depths.len(),
        old(tree)@.depths.len() == old(tree)@.nodes.len(),
    ensures
        final(tree)@.depths.len() == final(tree)@.nodes.len(),
        final(tree)@.depths.len() >= old(tree)@.depths.len(),
        match visit_spec(children@.skip(i as int), opts_view(*child_options), depth as nat) {
            Ok(forest) => r is Ok && final(tree)@.depths == old(tree)@.depths
                + forest.map_values(|p: (nat, NodeV)| p.0) && final(tree)@.nodes == old(
                tree,
            )@.nodes + forest.map_values(|p: (nat, NodeV)| p.1),
            Err(e) => r matches Err(e2) && e2 == e,
        },
    decreases children@, children@.len() - i,
{
    let ghost co_v = opts_view(*child_options);
    let ghost pre = tree@;
    if i == children.len() {
        proof {
            assert(children@.skip(i as int) =~= Seq::<ConfigValue>::empty());
            lemma_concat_empty_forest(pre);
        }
        return Ok(());
    }
    proof {
        assert(children@.skip(i as int)[0] == children@[i as int]);
        assert(children@.skip(i as int).drop_first() =~= children@.skip(i + 1));
    }
    let ghost sub = child_subtree_spec(children@[i as int], co_v, depth as nat);
    match &children[i] {
        ConfigValue::Str(s) => {
            let node: LeafNodeType = match child_options {
                Some(opts) => make_select(s.as_str(), opts),
                None => LeafNodeType::Text { name: s.clone() },
            };
            tree.push_at(depth, node);
            proof {
                let one = sub->Ok_0;
                assert(tree@.depths =~= pre.depths + one.map_values(|p: (nat, NodeV)| p.0));
                assert(tree@.nodes =~= pre.nodes + one.map_values(|p: (nat, NodeV)| p.1));
            }
        }
        ConfigValue::Mapping(m) => {
            let mut named = false;
            if m.len() == 1 {
                match (&m[0].0, &m[0].1) {
                    (ConfigValue::Str(k), ConfigValue::Mapping(inner)) => {
                        named = true;
                        match node_type_exec(inner, k.as_str(), child_options) {
                            Ok(node) => {
                                tree.push_at(depth, node);
                                let l = tree.len();
                                proof {
                                    assert(decreases_to!(children@ => children@[i as int]));
                                    assert(children@[i as int] == ConfigValue::Mapping(*m));
                                    assert(decreases_to!(children@[i as int] => children@[
                                        i as int
                                    ]->Mapping_0));
                                    assert(decreases_to!(*m => m@));
                                    assert(decreases_to!(m@ => m@[0]));
                                    assert(decreases_to!(m@[0] => m@[0].1));
                                    assert(m@[0].1 == ConfigValue::Mapping(*inner));
                                    assert(decreases_to!(m@[0].1 => m@[0].1->Mapping_0));
                                    assert(decreases_to!(*inner => inner@));
                                }
                                match walk_exec(inner, depth + 1, tree) {
                                    Ok(()) => {
                                        proof {
                                            let one = sub->Ok_0;
                                            let desc = walk_spec(inner@, (depth + 1) as nat)->Ok_0;
                                            assert(one.map_values(|p: (nat, NodeV)| p.0)
                                                =~= seq![depth as nat] + desc.map_values(
                                                |p: (nat, NodeV)| p.0,
                                            ));
                                            assert(one.map_values(|p: (nat, NodeV)| p.1)
                                                =~= seq![node_type_spec(inner@, (m@[0].0)->Str_0@, co_v)->Ok_0]
                                                + desc.map_values(|p: (nat, NodeV)| p.1));
                                            assert(tree@.depths =~= pre.depths + one.map_values(
                                                |p: (nat, NodeV)| p.0,
                                            ));
                                            assert(tree@.nodes =~= pre.nodes + one.map_values(
                                                |p: (nat, NodeV)| p.1,
                                            ));
                                        }
                                    }
                                    Err(e) => {
                                        return Err(e);
                                    }
                                }
                            }
                            Err(e) => {
                                return Err(e);
                            }
                        }
                    }
                    _ => {}
                }
            }
            if !named {
                proof {
                    assert(sub == Ok::<Seq<(nat, NodeV)>, TemplateError>(Seq::empty()));
                    lemma_concat_empty_forest(pre);
                }
            }
        }
        _ => {
            proof {
                lemma_concat_empty_forest(pre);
            }
        }
    }
    let rr = visit_exec(children, i + 1, child_options, depth, tree);
    proof {
        match (sub, visit_spec(children@.skip(i + 1), co_v, depth as nat)) {
            (Ok(one), Ok(rest)) => {
                assert((one + rest).map_values(|p: (nat, NodeV)| p.0) =~= one.map_values(
                    |p: (nat, NodeV)| p.0,
                ) + rest.map_values(|p: (nat, NodeV)| p.0));
                assert((one + rest).map_values(|p: (nat, NodeV)| p.1) =~= one.map_values(
                    |p: (nat, NodeV)| p.1,
                ) + rest.map_values(|p: (nat, NodeV)| p.1));
                assert(tree@.depths =~= pre.depths + (one + rest).map_values(
                    |p: (nat, NodeV)| p.0,
                ));
                assert(tree@.nodes =~= pre.nodes + (one + rest).map_values(
                    |p: (nat, NodeV)| p.1,
                ));
            }
            _ => {}
        }
    }
    rr
}


/// Whether a compiled forest may hang at base depth `d`: the first node
/// sits exactly at `d`, no node is shallower, consecutive nodes deepen by
/// at most one, and every node is well formed.
pub open spec fn forest_wf(forest: Seq<(nat, NodeV)>, d: nat) -> bool {
    &&& forall|i: int| 0 <= i < forest.len() ==> (#[trigger] forest[i]).0 >= d
    &&& forest.len() > 0 ==> forest[0].0 == d
    &&& forall|i: int| 1 <= i < forest.len() ==> (#[trigger] forest[i]).0 <= forest[i - 1].0 + 1
    &&& forall|i: int| 0 <= i < forest.len() ==> (#[trigger] forest[i]).1.wf()
}

/// A walked forest hangs together at its base depth.
pub proof fn lemma_walk_wf(entries: Seq<(ConfigValue, ConfigValue)>, d: nat)
    ensures
        walk_spec(entries, d) matches Ok(forest) ==> forest_wf(forest, d),
    decreases entries, 1int,
{
    match child_options_of(entries) {
        Ok(co) => {
            let ci = map_get_idx(entries, "children"@);
            if 0 <= ci < entries.len() {
                match entries[ci].1 {
                    ConfigValue::List(cs) => {
                        lemma_visit_wf(cs@, co, d);
                    }
                    _ => {}
                }
            }
        }
        Err(_) => {}
    }
}

/// The joined subtrees of a run of children hang together at their base
/// depth.
pub proof fn lemma_visit_wf(cs: Seq<ConfigValue>, co: Option<Seq<Seq<char>>>, d: nat)
    ensures
        visit_spec(cs, co, d) matches Ok(forest) ==> forest_wf(forest, d),
    decreases cs, 0int,
{
    if cs.len() > 0 {
        lemma_child_wf(cs[0], co, d);
        lemma_visit_wf(cs.drop_first(), co, d);
        match (child_subtree_spec(cs[0], co, d), visit_spec(cs.drop_first(), co, d)) {
            (Ok(sub), Ok(rest)) => {
                assert forall|i: int| 1 <= i < (sub + rest).len() implies (#[trigger] (sub
                    + rest)[i]).0 <= (sub + rest)[i - 1].0 + 1 by {
                    if i < sub.len() {
                        assert((sub + rest)[i] == sub[i]);
                        assert((sub + rest)[i - 1] == sub[i - 1]);
                    } else if i == sub.len() {
                        assert((sub + rest)[i] == rest[0]);
                    } else {
                        assert((sub + rest)[i] == rest[i - sub.len()]);
                        assert((sub + rest)[i - 1] == rest[i - 1 - sub.len()]);
                    }
                }
            }
            _ => {}
        }
    }
}

/// One child's subtree hangs together at its base depth.
pub proof fn lemma_child_wf(c: ConfigValue, co: Option<Seq<Seq<char>>>, d: nat)
    ensures
        child_subtree_spec(c, co, d) matches Ok(sub) ==> forest_wf(sub, d),
    decreases c, 2int,
{
    match c {
        ConfigValue::Mapping(m) => {
            if m@.len() == 1 {
                match m@[0].0 {
                    ConfigValue::Str(k) => match m@[0].1 {
                        ConfigValue::Mapping(inner) => {
                            lemma_walk_wf(inner@, d + 1);
                            match (node_type_spec(inner@, k@, co), walk_spec(inner@, d + 1)) {
                                (Ok(n), Ok(desc)) => {
                                    let sub = seq![(d, n)] + desc;
                                    assert(forest_wf(desc, d + 1));
                                    assert forall|i: int| 0 <= i < sub.len() implies (
                                    #[trigger] sub[i]).0 >= d && sub[i].1.wf() by {
                                        if i > 0 {
                                            assert(sub[i] == desc[i - 1]);
                                        }
                                    }
                                    assert forall|i: int| 1 <= i < sub.len() implies (
                                    #[trigger] sub[i]).0 <= sub[i - 1].0 + 1 by {
                                        if i == 1 {
                                            assert(sub[1] == desc[0]);
                                        } else {
                                            assert(sub[i] == desc[i - 1]);
                                            assert(sub[i - 1] == desc[i - 2]);
                                        }
                                    }
                                }
                                _ => {}
                            }
                        }
                        _ => {}
                    },
                    _ => {}
                }
            }
        }
        _ => {}
    }
}

/// A compiled tree is well formed.
pub proof fn lemma_compile_wf(c: ConfigValue)
    ensures
        compile_spec(c) matches Ok(tv) ==> tv.wf(),
{
    match c {
        ConfigValue::Mapping(top) => match map_get(top@, "project"@) {
            Some(ConfigValue::Mapping(proj)) => {
                lemma_walk_wf(proj@, 1);
                match walk_spec(proj@, 1) {
                    Ok(forest) => {
                        let tv = compile_spec(c)->Ok_0;
                        assert(forest_wf(forest, 1));
                        assert forall|i: int| 1 <= i < tv.depths.len() implies 1 <= #[trigger] tv
                            .depths[i] <= tv.depths[i - 1] + 1 by {
                            assert(tv.depths[i] == forest[i - 1].0);
                            if i > 1 {
                                assert(tv.depths[i - 1] == forest[i - 2].0);
                            }
                        }
                        assert forall|i: int| 0 <= i < tv.nodes.len() implies (#[trigger] tv
                            .nodes[i]).wf() by {
                            if i > 0 {
                                assert(tv.nodes[i] == forest[i - 1].1);
                            }
                        }
                    }
                    Err(_) => {}
                }
            },
            _ => {},
        },
        _ => {},
    }
}

/// What the compiler returns for a configuration: the one tree that
/// [`compile_spec`] gives, well formed, or the one error it gives.
pub open spec fn compile_matches(c: ConfigValue, r: Result<Tree, TemplateError>) -> bool {
    match compile_spec(c) {
        Ok(tv) => r matches Ok(t) && t@ == tv && t@.wf(),
        Err(e) => r matches Err(e2) && e2 == e,
    }
}

/// Compiling is deterministic: any two results that satisfy the compiler's
/// contract for the same configuration are structurally identical — the
/// same shape, the same variant and option order node for node, or the
/// same error.
pub proof fn lemma_compile_deterministic(
    c: ConfigValue,
    r1: Result<Tree, TemplateError>,
    r2: Result<Tree, TemplateError>,
)
    requires
        compile_matches(c, r1),
        compile_matches(c, r2),
    ensures
        r1 matches Ok(t1) ==> (r2 matches Ok(t2) && t1@ == t2@),
        r1 matches Err(e1) ==> (r2 matches Err(e2) && e1 == e2),
{
}

/// Option merge order: a node with inherited child-options and its own
/// declared option list compiles to a choice node whose labels are exactly
/// the inherited labels followed by its own, both in their original order,
/// duplicates kept.
pub proof fn lemma_option_merge_order(
    entries: Seq<(ConfigValue, ConfigValue)>,
    name: Seq<char>,
    co: Seq<Seq<char>>,
    own: Seq<Seq<char>>,
)
    requires
        (match map_get(entries, "options"@) {
            Some(ConfigValue::List(v)) => options_of(v@) == Ok::<_, TemplateError>(own),
            _ => false,
        }),
    ensures
        node_type_spec(entries, name, Some(co)) == Ok::<_, TemplateError>(
            NodeV::Select { name, options: select_items(co + own) },
        ),
{
}

/// Compile a parsed template into the question tree: the top level must
/// be a mapping with a `project` mapping inside; the root is a free-text
/// node pre-filled with the default location, and the project's children
/// hang below it (see [`compile_spec`]).
pub fn compile_config(config: &ConfigValue) -> (r: Result<Tree, TemplateError>)
    ensures
        compile_matches(*config, r),
{
    match config {
        ConfigValue::Mapping(top) => {
            match lookup(top, "project") {
                Some(pv) => match pv {
                    ConfigValue::Mapping(proj) => {
                        let dl: String = match lookup(proj, "default_location") {
                            Some(ConfigValue::Str(s)) => s.clone(),
                            _ => "~/".to_owned(),
                        };
                        let root = LeafNodeType::TextInput {
                            name: "Location".to_owned(),
                            input: dl,
                        };
                        let mut tree = Tree::new(root);
                        match walk_exec(proj, 1, &mut tree) {
                            Ok(()) => {
                                proof {
                                    lemma_compile_wf(*config);
                                    let tv = compile_spec(*config)->Ok_0;
                                    assert(tree@ =~= tv);
                                }
                                Ok(tree)
                            }
                            Err(e) => Err(e),
                        }
                    }
                    _ => Err(TemplateError::MissingProject),
                },
                None => Err(TemplateError::MissingProject),
            }
        }
        _ => Err(TemplateError::NotAMapping),
    }
}

/// Parse a template document and compile it: the single entry point the
/// surrounding program calls with the template file's text.
pub fn parse_project_yaml(yaml_str: &str) -> (r: Result<Tree, TemplateError>)
    ensures
        match parse_of(yaml_str@) {
            Some(c) => compile_matches(c, r),
            None => r matches Err(e) && e == TemplateError::Unparseable,
        },
{
    match parse_template(yaml_str) {
        Some(c) => compile_config(&c),
        None => Err(TemplateError::Unparseable),
    }
}

} // verus!
