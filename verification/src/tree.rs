//! Depth-bounded masking of tree-shaped values: the structured mode.
//!
//! A tree value is the library's own model of a JSON-like document: objects,
//! arrays, string leaves and plain scalars. The walk recurses into objects
//! and arrays with an explicit depth counter, skips excluded field names
//! entirely, redacts name- or user-like string fields with the name rule,
//! and runs every other short string leaf through the pattern masker.

use vstd::prelude::*;

use crate::config::MaskingConfig;
use crate::masker::{apply_global_standard_masking, mask_name, mask_text, spec_mask_name};
use crate::text::str_to_chars;

verus! {

/// A tree-shaped value.
pub enum TreeValue {
    Null,
    Boolean(bool),
    Number(i64),
    Text(String),
    Array(Vec<TreeValue>),
    Object(Vec<(String, TreeValue)>),
}

/// The mathematical shape of a tree value.
pub enum TreeModel {
    Null,
    Bool(bool),
    Num(int),
    Text(Seq<char>),
    Arr(Seq<TreeModel>),
    Obj(Seq<(Seq<char>, TreeModel)>),
}

/// The models of a sequence of tree values.
pub open spec fn list_model(items: Seq<TreeValue>) -> Seq<TreeModel>
    decreases items,
{
    if items.len() == 0 {
        Seq::empty()
    } else {
        seq![tree_model(items[0])] + list_model(items.drop_first())
    }
}

/// The models of a sequence of object fields.
pub open spec fn entries_model(entries: Seq<(String, TreeValue)>) -> Seq<(Seq<char>, TreeModel)>
    decreases entries,
{
    if entries.len() == 0 {
        Seq::empty()
    } else {
        seq![(entries[0].0@, tree_model(entries[0].1))] + entries_model(entries.drop_first())
    }
}

/// The model of an executable tree value.
pub open spec fn tree_model(v: TreeValue) -> TreeModel
    decreases v,
{
    match v {
        TreeValue::Null => TreeModel::Null,
        TreeValue::Boolean(b) => TreeModel::Bool(b),
        TreeValue::Number(n) => TreeModel::Num(n as int),
        TreeValue::Text(s) => TreeModel::Text(s@),
        TreeValue::Array(items) => TreeModel::Arr(list_model(items@)),
        TreeValue::Object(entries) => TreeModel::Obj(entries_model(entries@)),
    }
}

pub proof fn lemma_list_model(items: Seq<TreeValue>)
    ensures
        list_model(items).len() == items.len(),
        forall|i: int|
            0 <= i < items.len() ==> #[trigger] list_model(items)[i] == tree_model(items[i]),
    decreases items,
{
    if items.len() > 0 {
        lemma_list_model(items.drop_first());
    }
}

pub proof fn lemma_entries_model(entries: Seq<(String, TreeValue)>)
    ensures
        entries_model(entries).len() == entries.len(),
        forall|i: int|
            0 <= i < entries.len() ==> #[trigger] entries_model(entries)[i] == (
                entries[i].0@,
                tree_model(entries[i].1),
            ),
    decreases entries,
{
    if entries.len() > 0 {
        lemma_entries_model(entries.drop_first());
    }
}

/// Characters equal up to replacing an upper-case ASCII letter by its
/// lower-case form; `b` is the lower-case reference character.
pub open spec fn eqci(a: char, b: char) -> bool {
    a == b || ('a' <= b && b <= 'z' && a as int == b as int - 32)
}

/// The word `w` occurs at position `p` of `s`, case-insensitively.
pub open spec fn match_ci_at(s: Seq<char>, w: Seq<char>, p: int) -> bool {
    forall|j: int| 0 <= j < w.len() ==> eqci(s[p + j], #[trigger] w[j])
}

/// The lower-case form of `s` contains the lower-case word `w`.
pub open spec fn contains_ci(s: Seq<char>, w: Seq<char>) -> bool {
    exists|p: int| 0 <= p && p + w.len() <= s.len() && #[trigger] match_ci_at(s, w, p)
}

pub open spec fn name_needle() -> Seq<char> {
    seq!['n', 'a', 'm', 'e']
}

pub open spec fn user_needle() -> Seq<char> {
    seq!['u', 's', 'e', 'r']
}

/// A field key whose lower-case form contains `name` or `user`: its string
/// value is redacted with the name rule rather than the pattern passes.
pub open spec fn key_is_sensitive(k: Seq<char>) -> bool {
    contains_ci(k, name_needle()) || contains_ci(k, user_needle())
}

/// The key is exempt from masking altogether.
pub open spec fn is_excluded(k: Seq<char>, ex: Seq<Seq<char>>) -> bool {
    exists|i: int| 0 <= i < ex.len() && #[trigger] ex[i] == k
}

/// String leaves longer than this many characters are passed through
/// unmasked, bounding worst-case latency on pathological inputs.
pub const LEAF_CEILING: usize = 5000;

/// What the depth-bounded walk computes on the model. A node deeper than
/// `maxd` is left whole; a short string leaf runs through the pattern
/// masker; arrays and objects recurse one level deeper.
pub open spec fn mask_model(m: TreeModel, depth: int, maxd: int, ex: Seq<Seq<char>>) -> TreeModel
    decreases m, 0int,
{
    if depth > maxd {
        m
    } else {
        match m {
            TreeModel::Text(s) => if s.len() < LEAF_CEILING {
                TreeModel::Text(mask_text(s))
            } else {
                TreeModel::Text(s)
            },
            TreeModel::Arr(items) => TreeModel::Arr(
                mask_model_list(items, depth + 1, maxd, ex),
            ),
            TreeModel::Obj(entries) => TreeModel::Obj(
                mask_model_entries(entries, depth + 1, maxd, ex),
            ),
            other => other,
        }
    }
}

/// Element-wise masking of an array's models.
pub open spec fn mask_model_list(
    items: Seq<TreeModel>,
    depth: int,
    maxd: int,
    ex: Seq<Seq<char>>,
) -> Seq<TreeModel>
    decreases items, 2int,
{
    if items.len() == 0 {
        Seq::empty()
    } else {
        seq![mask_model(items[0], depth, maxd, ex)] + mask_model_list(
            items.drop_first(),
            depth,
            maxd,
            ex,
        )
    }
}

/// Field-wise masking of an object's models; keys are kept.
pub open spec fn mask_model_entries(
    entries: Seq<(Seq<char>, TreeModel)>,
    depth: int,
    maxd: int,
    ex: Seq<Seq<char>>,
) -> Seq<(Seq<char>, TreeModel)>
    decreases entries, 2int,
{
    if entries.len() == 0 {
        Seq::empty()
    } else {
        seq![(entries[0].0, mask_entry_value(entries[0].0, entries[0].1, depth, maxd, ex))]
            + mask_model_entries(entries.drop_first(), depth, maxd, ex)
    }
}

/// What one object field's value becomes: excluded keys keep their value
/// untouched, sensitive keys with a string value get the name rule, and
/// everything else recurses.
pub open spec fn mask_entry_value(
    k: Seq<char>,
    v: TreeModel,
    depth: int,
    maxd: int,
    ex: Seq<Seq<char>>,
) -> TreeModel
    decreases v, 1int,
{
    if is_excluded(k, ex) {
        v
    } else if key_is_sensitive(k) && v matches TreeModel::Text(_) {
        TreeModel::Text(spec_mask_name(v->Text_0))
    } else {
        mask_model(v, depth, maxd, ex)
    }
}

pub proof fn lemma_mask_model_list(items: Seq<TreeModel>, depth: int, maxd: int, ex: Seq<Seq<char>>)
    ensures
        mask_model_list(items, depth, maxd, ex).len() == items.len(),
        forall|i: int|
            0 <= i < items.len() ==> #[trigger] mask_model_list(items, depth, maxd, ex)[i]
                == mask_model(items[i], depth, maxd, ex),
    decreases items,
{
    if items.len() > 0 {
        lemma_mask_model_list(items.drop_first(), depth, maxd, ex);
    }
}

pub proof fn lemma_mask_model_entries(
    entries: Seq<(Seq<char>, TreeModel)>,
    depth: int,
    maxd: int,
    ex: Seq<Seq<char>>,
)
    ensures
        mask_model_entries(entries, depth, maxd, ex).len() == entries.len(),
        forall|i: int|
            0 <= i < entries.len() ==> #[trigger] mask_model_entries(entries, depth, maxd, ex)[i]
                == (
                entries[i].0,
                mask_entry_value(entries[i].0, entries[i].1, depth, maxd, ex),
            ),
    decreases entries,
{
    if entries.len() > 0 {
        lemma_mask_model_entries(entries.drop_first(), depth, maxd, ex);
    }
}

fn eq_ci_char(a: char, b: char) -> (r: bool)
    ensures
        r == eqci(a, b),
{
    a == b || ('a' <= b && b <= 'z' && a as u32 == b as u32 - 32)
}

/// The word `w` occurs at position `p`, case-insensitively.
fn match_ci_at_vec(s: &Vec<char>, w: &Vec<char>, p: usize) -> (r: bool)
    requires
        p + w@.len() <= s@.len(),
    ensures
        r == match_ci_at(s@, w@, p as int),
{
    let total = s.len();
    let mut j: usize = 0;
    while j < w.len()
        invariant
            total == s@.len(),
            p + w@.len() <= s@.len(),
            0 <= j <= w@.len(),
            forall|jj: int| 0 <= jj < j ==> eqci(s@[p + jj], #[trigger] w@[jj]),
        decreases w@.len() - j,
    {
        if !eq_ci_char(s[p + j], w[j]) {
            proof {
                assert(!eqci(s@[p + j], w@[j as int]));
            }
            return false;
        }
        j = j + 1;
    }
    true
}

/// Case-insensitive containment of the lower-case word `w` in `s`.
fn contains_ci_vec(s: &Vec<char>, w: &Vec<char>) -> (r: bool)
    ensures
        r == contains_ci(s@, w@),
{
    if w.len() > s.len() {
        return false;
    }
    let bound = s.len() - w.len();
    let mut p: usize = 0;
    while p <= bound
        invariant
            w@.len() <= s@.len(),
            bound == s@.len() - w@.len(),
            0 <= p <= bound,
            forall|q: int| 0 <= q < p ==> !match_ci_at(s@, w@, q),
        ensures
            forall|q: int| 0 <= q <= bound ==> !match_ci_at(s@, w@, q),
        decreases bound + 1 - p,
    {
        if match_ci_at_vec(s, w, p) {
            return true;
        }
        if p == bound {
            break ;
        }
        p = p + 1;
    }
    false
}

fn name_needle_vec() -> (r: Vec<char>)
    ensures
        r@ == name_needle(),
{
    let mut v: Vec<char> = Vec::new();
    v.push('n');
    v.push('a');
    v.push('m');
    v.push('e');
    proof {
        assert(v@ =~= name_needle());
    }
    v
}

fn user_needle_vec() -> (r: Vec<char>)
    ensures
        r@ == user_needle(),
{
    let mut v: Vec<char> = Vec::new();
    v.push('u');
    v.push('s');
    v.push('e');
    v.push('r');
    proof {
        assert(v@ =~= user_needle());
    }
    v
}

/// The key is on the exclude list.
fn key_excluded(k: &String, config: &MaskingConfig) -> (r: bool)
    ensures
        r == is_excluded(k@, config.exclude_fields.deep_view()),
{
    let mut i: usize = 0;
    while i < config.exclude_fields.len()
        invariant
            0 <= i <= config.exclude_fields@.len(),
            forall|j: int| 0 <= j < i ==> #[trigger] config.exclude_fields.deep_view()[j] != k@,
        decreases config.exclude_fields@.len() - i,
    {
        if k.eq(&config.exclude_fields[i]) {
            proof {
                assert(config.exclude_fields.deep_view()[i as int] == k@);
            }
            return true;
        }
        i = i + 1;
    }
    false
}

/// One node of the walk, with the depth already widened.
fn mask_node(value: TreeValue, depth: u32, config: &MaskingConfig) -> (r: TreeValue)
    ensures
        tree_model(r) == mask_model(
            tree_model(value),
            depth as int,
            config.max_depth as int,
            config.exclude_fields.deep_view(),
        ),
    decreases value,
{
    let ghost maxd = config.max_depth as int;
    let ghost ex = config.exclude_fields.deep_view();
    if depth > config.max_depth as u32 {
        return value;
    }
    match value {
        TreeValue::Text(s) => {
            if s.as_str().unicode_len() < LEAF_CEILING {
                TreeValue::Text(apply_global_standard_masking(s.as_str()))
            } else {
                TreeValue::Text(s)
            }
        },
        TreeValue::Array(items) => {
            let ghost items0 = items@;
            let r = mask_items(items, depth + 1, config);
            proof {
                lemma_list_model(items0);
                lemma_list_model(r@);
                lemma_mask_model_list(list_model(items0), depth + 1, maxd, ex);
                assert(list_model(r@) =~= mask_model_list(list_model(items0), depth + 1, maxd, ex));
            }
            TreeValue::Array(r)
        },
        TreeValue::Object(entries) => {
            let ghost entries0 = entries@;
            let r = mask_entries(entries, depth + 1, config);
            proof {
                lemma_entries_model(entries0);
                lemma_entries_model(r@);
                lemma_mask_model_entries(entries_model(entries0), depth + 1, maxd, ex);
                assert(entries_model(r@) =~= mask_model_entries(
                    entries_model(entries0),
                    depth + 1,
                    maxd,
                    ex,
                ));
            }
            TreeValue::Object(r)
        },
        other => other,
    }
}

/// Masks every element of an array, one level deeper.
fn mask_items(items: Vec<TreeValue>, depth: u32, config: &MaskingConfig) -> (r: Vec<TreeValue>)
    ensures
        r@.len() == items@.len(),
        forall|i: int|
            0 <= i < r@.len() ==> tree_model(#[trigger] r@[i]) == mask_model(
                tree_model(items@[i]),
                depth as int,
                config.max_depth as int,
                config.exclude_fields.deep_view(),
            ),
    decreases items@,
{
    let mut items = items;
    if items.len() == 0 {
        items
    } else {
        let ghost items0 = items@;
        let first = items.remove(0);
        let masked_first = mask_node(first, depth, config);
        let mut rest = mask_items(items, depth, config);
        rest.insert(0, masked_first);
        proof {
            assert(forall|i: int|
                1 <= i < rest@.len() ==> #[trigger] rest@[i] == rest@.subrange(
                    1,
                    rest@.len() as int,
                )[i - 1]);
        }
        rest
    }
}

/// Masks every field of an object, one level deeper.
fn mask_entries(entries: Vec<(String, TreeValue)>, depth: u32, config: &MaskingConfig) -> (r: Vec<
    (String, TreeValue),
>)
    ensures
        r@.len() == entries@.len(),
        forall|i: int| 0 <= i < r@.len() ==> (#[trigger] r@[i]).0@ == entries@[i].0@,
        forall|i: int|
            0 <= i < r@.len() ==> tree_model((#[trigger] r@[i]).1) == mask_entry_value(
                entries@[i].0@,
                tree_model(entries@[i].1),
                depth as int,
                config.max_depth as int,
                config.exclude_fields.deep_view(),
            ),
    decreases entries@,
{
    let mut entries = entries;
    if entries.len() == 0 {
        entries
    } else {
        let ghost entries0 = entries@;
        let first = entries.remove(0);
        let (k, v) = first;
        let nv: TreeValue = if key_excluded(&k, config) {
            v
        } else {
            let kc = str_to_chars(k.as_str());
            let nn = name_needle_vec();
            let un = user_needle_vec();
            let sensitive = contains_ci_vec(&kc, &nn) || contains_ci_vec(&kc, &un);
            match v {
                TreeValue::Text(s) => {
                    if sensitive {
                        TreeValue::Text(mask_name(s.as_str()))
                    } else {
                        mask_node(TreeValue::Text(s), depth, config)
                    }
                },
                other => mask_node(other, depth, config),
            }
        };
        let mut rest = mask_entries(entries, depth, config);
        rest.insert(0, (k, nv));
        proof {
            assert(forall|i: int|
                1 <= i < rest@.len() ==> #[trigger] rest@[i] == rest@.subrange(
                    1,
                    rest@.len() as int,
                )[i - 1]);
        }
        rest
    }
}

/// The depth-bounded, in-order masking walk over a tree value: the
/// structured masking mode.
pub fn mask_pii(value: TreeValue, depth: u8, config: &MaskingConfig) -> (r: TreeValue)
    ensures
        tree_model(r) == mask_model(
            tree_model(value),
            depth as int,
            config.max_depth as int,
            config.exclude_fields.deep_view(),
        ),
{
    mask_node(value, depth as u32, config)
}

} // verus!
