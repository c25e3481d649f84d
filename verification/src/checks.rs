use vstd::prelude::*;

use crate::browse::{Focus, MillerState};
use crate::browse_input::{cursor_full_ok, opens_entry, InputEvent, Mode};
use crate::json::{
    entries_depth, entries_model, items_depth, items_model, json_depth, lemma_array_model, lemma_object_model, Json,
    JsonValue,
};
use crate::text::{chars_of, contains_char, string_of};
use crate::keys::{is_char, Key};
use crate::tree::{get_children_at_path, lemma_branch_model, level, level_short_ok, node_short_ok, ConfigNode, Node};
use crate::values::{lemma_full_ok_parts, byte_len, full_ok, longer_than, prefix_bytes, short_ok};

verus! {

// ---------------------------------------------------------------------------
// Depth
// ---------------------------------------------------------------------------

/// `d`, or `usize::MAX` when larger.
pub open spec fn capped(d: nat) -> nat {
    if d >= usize::MAX {
        usize::MAX as nat
    } else {
        d
    }
}

fn depth_capped(v: &JsonValue) -> (d: usize)
    ensures
        d == capped(json_depth(v.model())),
    decreases v, 1nat,
{
    match v {
        JsonValue::Array(items) => {
            proof {
                lemma_array_model(items);
            }
            let inner = items_depth_capped(items);
            if inner == usize::MAX {
                usize::MAX
            } else {
                inner + 1
            }
        },
        JsonValue::Object(entries) => {
            proof {
                lemma_object_model(entries);
            }
            let inner = entries_depth_capped(entries);
            if inner == usize::MAX {
                usize::MAX
            } else {
                inner + 1
            }
        },
        _ => 0,
    }
}

fn items_depth_capped(items: &Vec<JsonValue>) -> (d: usize)
    ensures
        d == capped(items_depth(items_model(items@))),
    decreases items, 0nat,
{
    let ghost m = items_model(items@);
    let mut acc: usize = 0;
    let mut i: usize = 0;
    proof {
        assert(m.take(0) =~= Seq::<Json>::empty());
    }
    while i < items.len()
        invariant
            i <= items.len(),
            m == items_model(items@),
            acc == capped(items_depth(m.take(i as int))),
        decreases items.len() - i,
    {
        let d = depth_capped(&items[i]);
        proof {
            assert(m.take(i + 1).drop_last() =~= m.take(i as int));
            assert(m.take(i + 1).last() == items@[i as int].model());
        }
        if d > acc {
            acc = d;
        }
        i += 1;
    }
    proof {
        assert(m.take(items.len() as int) =~= m);
    }
    acc
}

fn entries_depth_capped(entries: &Vec<(String, JsonValue)>) -> (d: usize)
    ensures
        d == capped(entries_depth(entries_model(entries@))),
    decreases entries, 0nat,
{
    let ghost m = entries_model(entries@);
    let mut acc: usize = 0;
    let mut i: usize = 0;
    proof {
        assert(m.take(0) =~= Seq::<(Seq<char>, Json)>::empty());
    }
    while i < entries.len()
        invariant
            i <= entries.len(),
            m == entries_model(entries@),
            acc == capped(entries_depth(m.take(i as int))),
        decreases entries.len() - i,
    {
        let d = depth_capped(&entries[i].1);
        proof {
            assert(m.take(i + 1).drop_last() =~= m.take(i as int));
            assert(m.take(i + 1).last().1 == entries@[i as int].1.model());
        }
        if d > acc {
            acc = d;
        }
        i += 1;
    }
    proof {
        assert(m.take(entries.len() as int) =~= m);
    }
    acc
}

/// Whether the document's nesting leaves room to count its levels.
pub fn depth_fits(v: &JsonValue) -> (r: bool)
    ensures
        r == (json_depth(v.model()) < usize::MAX),
{
    depth_capped(v) < usize::MAX
}

// ---------------------------------------------------------------------------
// Renderings that cut strings
// ---------------------------------------------------------------------------

/// Whether the short form of a value can be made.
pub fn short_fits(v: &JsonValue) -> (r: bool)
    ensures
        r == short_ok(v.model()),
{
    match v {
        JsonValue::Str(s) => {
            if contains_char(s.as_str(), '\n') {
                return true;
            }
            let cs = chars_of(s.as_str());
            if !longer_than(&cs, 40) {
                return true;
            }
            let p = prefix_bytes(&cs, 37);
            let ps = string_of(&p);
            byte_len(ps.as_str()) == 37
        },
        _ => true,
    }
}

/// Whether the full form of a value can be made.
pub fn full_fits(v: &JsonValue) -> (r: bool)
    ensures
        r == full_ok(v.model()),
{
    match v {
        JsonValue::Array(items) => {
            proof {
                lemma_array_model(items);
            }
            let ghost m = items_model(items@);
            let mut i: usize = 0;
            while i < items.len()
                invariant
                    i <= items.len(),
                    m == items_model(items@),
                    v.model() == Json::Array(m),
                    forall|k: int| 0 <= k < i ==> short_ok(#[trigger] m[k]),
                decreases items.len() - i,
            {
                if !short_fits(&items[i]) {
                    proof {
                        assert(!short_ok(m[i as int]));
                        assert(0 <= i < m.len());
                        lemma_full_ok_parts(Json::Array(m), i as int);
                        assert(!full_ok(Json::Array(m)));
                    }
                    return false;
                }
                i += 1;
            }
            true
        },
        JsonValue::Object(entries) => {
            proof {
                lemma_object_model(entries);
            }
            let ghost m = entries_model(entries@);
            let mut i: usize = 0;
            while i < entries.len()
                invariant
                    i <= entries.len(),
                    m == entries_model(entries@),
                    v.model() == Json::Object(m),
                    forall|k: int| 0 <= k < i ==> short_ok(#[trigger] m[k].1),
                decreases entries.len() - i,
            {
                if !short_fits(&entries[i].1) {
                    proof {
                        assert(!short_ok(m[i as int].1));
                        assert(0 <= i < m.len());
                        lemma_full_ok_parts(Json::Object(m), i as int);
                        assert(!full_ok(Json::Object(m)));
                    }
                    return false;
                }
                i += 1;
            }
            true
        },
        _ => true,
    }
}

/// Whether the step for `input` can make what it shows: where it opens the
/// entry under the cursor of the middle pane and that entry is a leaf, the
/// leaf's full form must be made.
pub fn step_renders(input: &InputEvent, mode: &Mode, state: &MillerState, root: &Vec<(String, ConfigNode)>) -> (r: bool)
    ensures
        r == (opens_entry(*input, mode.model(), state.nav()) ==> cursor_full_ok(state.nav(), level(root@))),
{
    let opens = match input {
        InputEvent::Key(k) => (is_char(k, 'l') || k.code == Key::Right || k.code == Key::Enter) && state.focus
            == Focus::Middle && match mode {
            Mode::Normal => true,
            _ => false,
        },
        _ => false,
    };
    if !opens {
        return true;
    }
    match get_children_at_path(root, &state.path) {
        Some(children) => if state.cursor < children.len() {
            let c = state.cursor;
            proof {
                assert(level(children@)[c as int] == (children@[c as int].0@, children@[c as int].1.model()));
            }
            match &children[c].1 {
                ConfigNode::Leaf(v) => full_fits(v),
                _ => true,
            }
        } else {
            true
        },
        None => true,
    }
}

fn node_prints(n: &ConfigNode) -> (r: bool)
    ensures
        r == node_short_ok(n.model()),
    decreases n, 1nat,
{
    match n {
        ConfigNode::Branch(ch) => {
            proof {
                lemma_branch_model(ch);
            }
            tree_prints(ch)
        },
        ConfigNode::Leaf(v) => short_fits(v),
        ConfigNode::Phantom => true,
    }
}

/// Whether every leaf of the tree has a short rendering (what the text
/// listing of the tree shows).
pub fn tree_prints(children: &Vec<(String, ConfigNode)>) -> (r: bool)
    ensures
        r == level_short_ok(level(children@)),
    decreases children, 0nat,
{
    let ghost lv = level(children@);
    let mut i: usize = 0;
    proof {
        assert(lv.take(0) =~= Seq::<(Seq<char>, Node)>::empty());
    }
    while i < children.len()
        invariant
            i <= children.len(),
            lv == level(children@),
            level_short_ok(lv.take(i as int)),
        decreases children.len() - i,
    {
        proof {
            assert(lv.take(i + 1).drop_last() =~= lv.take(i as int));
            assert(lv.take(i + 1).last().1 == children@[i as int].1.model());
        }
        if !node_prints(&children[i].1) {
            proof {
                if level_short_ok(lv) {
                    lemma_level_short_ok_prefix(lv, i as int + 1);
                }
            }
            return false;
        }
        i += 1;
    }
    proof {
        assert(lv.take(children.len() as int) =~= lv);
    }
    true
}

/// A level whose leaves have short forms has them in every prefix too.
proof fn lemma_level_short_ok_prefix(lv: Seq<(Seq<char>, Node)>, k: int)
    requires
        0 <= k <= lv.len(),
        level_short_ok(lv),
    ensures
        level_short_ok(lv.take(k)),
    decreases lv.len(),
{
    if k < lv.len() {
        assert(lv.drop_last().take(k) =~= lv.take(k));
        lemma_level_short_ok_prefix(lv.drop_last(), k);
    } else {
        assert(lv.take(k) =~= lv);
    }
}

} // verus!
