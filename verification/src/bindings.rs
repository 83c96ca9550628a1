//! Key bindings: a table from key combinations to action names.
use vstd::prelude::*;
use vstd::string::*;

use crate::keyboard::{join_mods, mods_prefix, Mods};
use crate::session::action_named;
use crate::text::{first_index, list_has, owned, same, split_at_each, split_text, texts};
use crate::text_map::{lemma_table_entry, lemma_table_step, table_of, TextMap};

verus! {

/// Whether a text names a modifier.
pub open spec fn is_modifier(s: Seq<char>) -> bool {
    s == "ctrl"@ || s == "alt"@ || s == "super"@ || s == "shift"@
}

/// The modifiers that a list of texts names.
pub open spec fn named_mods(parts: Seq<Seq<char>>) -> Mods {
    Mods {
        ctrl: parts.contains("ctrl"@),
        shift: parts.contains("shift"@),
        alt: parts.contains("alt"@),
        super_: parts.contains("super"@),
    }
}

/// A combination with its modifiers in the order that key events are looked up
/// with. A combination with a part before the key that is no modifier, or that
/// stands there twice, stays as it is.
pub open spec fn canonical(combination: Seq<char>) -> Seq<char> {
    let parts = split_at_each(combination, '+');
    let mods = parts.drop_last();
    if mods.no_duplicates() && forall|i: int|
        0 <= i < mods.len() ==> is_modifier(#[trigger] mods[i]) {
        mods_prefix(named_mods(mods)) + parts.last()
    } else {
        combination
    }
}

/// The order of the modifiers in a combination does not matter: two combinations
/// that name the same modifiers, each once, and the same key are one.
pub proof fn law_modifier_order(a: Seq<char>, b: Seq<char>)
    requires
        split_at_each(a, '+').last() == split_at_each(b, '+').last(),
        split_at_each(a, '+').drop_last().no_duplicates(),
        split_at_each(b, '+').drop_last().no_duplicates(),
        forall|i: int|
            0 <= i < split_at_each(a, '+').len() - 1 ==> is_modifier(
                #[trigger] split_at_each(a, '+')[i],
            ),
        forall|i: int|
            0 <= i < split_at_each(b, '+').len() - 1 ==> is_modifier(
                #[trigger] split_at_each(b, '+')[i],
            ),
        named_mods(split_at_each(a, '+').drop_last()) == named_mods(
            split_at_each(b, '+').drop_last(),
        ),
    ensures
        canonical(a) == canonical(b),
{
    let x = split_at_each(a, '+').drop_last();
    let y = split_at_each(b, '+').drop_last();
    assert forall|i: int| 0 <= i < x.len() implies is_modifier(#[trigger] x[i]) by {
        assert(x[i] == split_at_each(a, '+')[i]);
    }
    assert forall|i: int| 0 <= i < y.len() implies is_modifier(#[trigger] y[i]) by {
        assert(y[i] == split_at_each(b, '+')[i]);
    }
}

/// Whether a list holds a text twice.
fn has_repeat(list: &Vec<String>) -> (r: bool)
    ensures
        r == !texts(list@).no_duplicates(),
{
    let ghost all = texts(list@);
    let mut i: usize = 0;
    while i < list.len()
        invariant
            i <= list@.len(),
            all == texts(list@),
            forall|a: int, b: int|
                0 <= a < b < all.len() && a < i ==> #[trigger] all[a] != #[trigger] all[b],
        decreases list@.len() - i,
    {
        let mut k: usize = i + 1;
        while k < list.len()
            invariant
                i < k <= list@.len(),
                all == texts(list@),
                forall|b: int| i < b < k ==> all[i as int] != #[trigger] all[b],
            decreases list@.len() - k,
        {
            if same(list[i].as_str(), list[k].as_str()) {
                assert(all[i as int] == all[k as int]);
                return true;
            }
            k += 1;
        }
        i += 1;
    }
    false
}

/// A combination with its modifiers in the order that key events are looked up
/// with.
pub fn canonical_combination(combination: &str) -> (r: String)
    ensures
        r@ == canonical(combination@),
{
    let mut parts = split_text(combination, '+');
    let ghost all = texts(parts@);
    if parts.len() == 0 {
        return owned(combination);
    }
    let key = match parts.pop() {
        Some(key) => key,
        None => return owned(combination),
    };
    let ghost mods = all.drop_last();
    assert(texts(parts@) =~= mods);
    assert(key@ == all.last());
    if has_repeat(&parts) {
        return owned(combination);
    }
    let mut i: usize = 0;
    while i < parts.len()
        invariant
            i <= parts@.len(),
            texts(parts@) == mods,
            mods == split_at_each(combination@, '+').drop_last(),
            forall|k: int| 0 <= k < i ==> is_modifier(#[trigger] mods[k]),
        decreases parts@.len() - i,
    {
        let part = parts[i].as_str();
        assert(mods[i as int] == part@);
        if !(same(part, "ctrl") || same(part, "alt") || same(part, "super") || same(
            part,
            "shift",
        )) {
            return owned(combination);
        }
        i += 1;
    }
    let held = Mods {
        ctrl: list_has(&parts, "ctrl"),
        shift: list_has(&parts, "shift"),
        alt: list_has(&parts, "alt"),
        super_: list_has(&parts, "super"),
    };
    join_mods(held, key.as_str())
}

/// A table from key combinations (`ctrl+shift+e`) to action names
/// (`split_right`).
pub struct Bindings {
    table: TextMap,
}

impl View for Bindings {
    type V = Map<Seq<char>, Seq<char>>;

    closed spec fn view(&self) -> Map<Seq<char>, Seq<char>> {
        self.table@
    }
}

impl Bindings {
    /// A table that binds nothing.
    pub fn new() -> (r: Bindings)
        ensures
            r@ == Map::<Seq<char>, Seq<char>>::empty(),
    {
        Bindings { table: TextMap::new() }
    }

    /// Bind a combination to an action, in place of what it was bound to. The
    /// modifiers may stand in any order.
    pub fn insert(&mut self, combination: &str, action: &str)
        ensures
            final(self)@ == old(self)@.insert(canonical(combination@), action@),
    {
        let combination = canonical_combination(combination);
        self.bind(combination.as_str(), action)
    }

    /// Bind a combination, taken as it is, to an action.
    fn bind(&mut self, combination: &str, action: &str)
        ensures
            final(self)@ == old(self)@.insert(combination@, action@),
    {
        self.table.insert(combination, action)
    }

    /// The action that a combination is bound to, the modifiers in the order
    /// of [`canonical_combination`].
    pub fn get(&self, combination: &str) -> (r: Option<String>)
        ensures
            match r {
                Some(action) => self@.contains_key(combination@) && self@[combination@] == action@,
                None => !self@.contains_key(combination@),
            },
    {
        self.table.get(combination)
    }

    /// Add every binding of `other`; where both bind a combination, `other`
    /// wins.
    pub fn extend(&mut self, other: &Bindings)
        ensures
            final(self)@ == old(self)@.union_prefer_right(other@),
    {
        self.table.extend(&other.table)
    }
}

/// The default bindings, as pairs of combination and action.
pub open spec fn default_pairs() -> Seq<(Seq<char>, Seq<char>)> {
    seq![
        ("ctrl+shift+e"@, "split_right"@),
        ("ctrl+shift+o"@, "split_below"@),
        ("ctrl+shift+x"@, "close_pane"@),
        ("ctrl+shift+]"@, "next_pane"@),
        ("ctrl+shift+["@, "prev_pane"@),
        ("ctrl+alt+up"@, "focus_pane_up"@),
        ("ctrl+alt+down"@, "focus_pane_down"@),
        ("ctrl+alt+left"@, "focus_pane_left"@),
        ("ctrl+alt+right"@, "focus_pane_right"@),
        ("ctrl+shift+f"@, "search"@),
        ("ctrl+shift+f2"@, "search"@),
        ("ctrl+shift+enter"@, "search_next"@),
        ("ctrl+shift+g"@, "search_next"@),
        ("ctrl+shift+h"@, "search_prev"@),
        ("ctrl+shift+p"@, "command"@),
        ("ctrl+shift+up"@, "scroll_up"@),
        ("ctrl+shift+down"@, "scroll_down"@),
        ("ctrl+shift+pageup"@, "page_up"@),
        ("ctrl+shift+pagedown"@, "page_down"@),
        ("ctrl+shift+home"@, "scroll_top"@),
        ("ctrl+shift+end"@, "scroll_bottom"@),
        ("ctrl+shift+c"@, "copy"@),
        ("ctrl+shift+v"@, "paste"@),
        ("ctrl+plus"@, "font_increase"@),
        ("ctrl+minus"@, "font_decrease"@),
        ("ctrl+0"@, "font_reset"@),
        ("ctrl+shift+q"@, "quit"@),
    ]
}

/// The bindings of a configuration that sets none.
pub fn default_keybindings() -> (r: Bindings)
    ensures
        r@ == table_of(default_pairs()),
{
    let mut b = Bindings::new();
    let ghost pairs = default_pairs();
    proof {
        assert(pairs.take(0) =~= Seq::empty());
    }
    b.bind("ctrl+shift+e", "split_right");
    proof {
        lemma_table_step(pairs, 0);
    }
    b.bind("ctrl+shift+o", "split_below");
    proof {
        lemma_table_step(pairs, 1);
    }
    b.bind("ctrl+shift+x", "close_pane");
    proof {
        lemma_table_step(pairs, 2);
    }
    b.bind("ctrl+shift+]", "next_pane");
    proof {
        lemma_table_step(pairs, 3);
    }
    b.bind("ctrl+shift+[", "prev_pane");
    proof {
        lemma_table_step(pairs, 4);
    }
    b.bind("ctrl+alt+up", "focus_pane_up");
    proof {
        lemma_table_step(pairs, 5);
    }
    b.bind("ctrl+alt+down", "focus_pane_down");
    proof {
        lemma_table_step(pairs, 6);
    }
    b.bind("ctrl+alt+left", "focus_pane_left");
    proof {
        lemma_table_step(pairs, 7);
    }
    b.bind("ctrl+alt+right", "focus_pane_right");
    proof {
        lemma_table_step(pairs, 8);
    }
    b.bind("ctrl+shift+f", "search");
    proof {
        lemma_table_step(pairs, 9);
    }
    b.bind("ctrl+shift+f2", "search");
    proof {
        lemma_table_step(pairs, 10);
    }
    b.bind("ctrl+shift+enter", "search_next");
    proof {
        lemma_table_step(pairs, 11);
    }
    b.bind("ctrl+shift+g", "search_next");
    proof {
        lemma_table_step(pairs, 12);
    }
    b.bind("ctrl+shift+h", "search_prev");
    proof {
        lemma_table_step(pairs, 13);
    }
    b.bind("ctrl+shift+p", "command");
    proof {
        lemma_table_step(pairs, 14);
    }
    b.bind("ctrl+shift+up", "scroll_up");
    proof {
        lemma_table_step(pairs, 15);
    }
    b.bind("ctrl+shift+down", "scroll_down");
    proof {
        lemma_table_step(pairs, 16);
    }
    b.bind("ctrl+shift+pageup", "page_up");
    proof {
        lemma_table_step(pairs, 17);
    }
    b.bind("ctrl+shift+pagedown", "page_down");
    proof {
        lemma_table_step(pairs, 18);
    }
    b.bind("ctrl+shift+home", "scroll_top");
    proof {
        lemma_table_step(pairs, 19);
    }
    b.bind("ctrl+shift+end", "scroll_bottom");
    proof {
        lemma_table_step(pairs, 20);
    }
    b.bind("ctrl+shift+c", "copy");
    proof {
        lemma_table_step(pairs, 21);
    }
    b.bind("ctrl+shift+v", "paste");
    proof {
        lemma_table_step(pairs, 22);
    }
    b.bind("ctrl+plus", "font_increase");
    proof {
        lemma_table_step(pairs, 23);
    }
    b.bind("ctrl+minus", "font_decrease");
    proof {
        lemma_table_step(pairs, 24);
    }
    b.bind("ctrl+0", "font_reset");
    proof {
        lemma_table_step(pairs, 25);
    }
    b.bind("ctrl+shift+q", "quit");
    proof {
        lemma_table_step(pairs, 26);
    }
    assert(pairs.take(27) =~= pairs);
    b
}

// ---------------------------------------------------------------------------
// Laws
// ---------------------------------------------------------------------------

/// A part in front of a plus is the first one.
proof fn lemma_first_part(part: Seq<char>, rest: Seq<char>)
    requires
        !part.contains('+'),
    ensures
        split_at_each(part + seq!['+'] + rest, '+') == seq![part] + split_at_each(rest, '+'),
        split_at_each(part, '+') == seq![part],
{
    let all = part + seq!['+'] + rest;
    lemma_first_plus(part, rest);
    assert(all.take(part.len() as int) =~= part);
    assert(all.skip(part.len() as int + 1) =~= rest);
}

/// The first plus of a text with none in front of it.
proof fn lemma_first_plus(part: Seq<char>, rest: Seq<char>)
    requires
        !part.contains('+'),
    ensures
        first_index(part, '+') == part.len(),
        first_index(part + seq!['+'] + rest, '+') == part.len(),
    decreases part.len(),
{
    let all = part + seq!['+'] + rest;
    if part.len() == 0 {
        assert(all[0] == '+');
    } else {
        let tail = part.drop_first();
        assert(part.contains(part[0]));
        assert(all[0] == part[0]);
        assert(all.drop_first() =~= tail + seq!['+'] + rest);
        assert(!tail.contains('+')) by {
            if tail.contains('+') {
                let k = choose|k: int| 0 <= k < tail.len() && tail[k] == '+';
                assert(part[k + 1] == '+');
            }
        }
        lemma_first_plus(tail, rest);
    }
}

/// The parts that the modifiers in front of a key make.
spec fn modifier_parts(mods: Mods) -> Seq<Seq<char>> {
    (if mods.ctrl {
        seq!["ctrl"@]
    } else {
        seq![]
    }) + (if mods.alt {
        seq!["alt"@]
    } else {
        seq![]
    }) + (if mods.super_ {
        seq!["super"@]
    } else {
        seq![]
    }) + (if mods.shift {
        seq!["shift"@]
    } else {
        seq![]
    })
}

/// The modifiers in front of a key and the key are the parts of a combination.
proof fn lemma_prefix_parts(mods: Mods, key: Seq<char>)
    requires
        !key.contains('+'),
    ensures
        split_at_each(mods_prefix(mods) + key, '+') == modifier_parts(mods).push(key),
{
    reveal_strlit("ctrl");
    reveal_strlit("ctrl+");
    reveal_strlit("alt");
    reveal_strlit("alt+");
    reveal_strlit("super");
    reveal_strlit("super+");
    reveal_strlit("shift");
    reveal_strlit("shift+");
    let empty = Seq::<char>::empty();
    let a = (if mods.shift {
        "shift+"@
    } else {
        empty
    }) + key;
    lemma_first_part(key, empty);
    lemma_first_part("shift"@, key);
    assert("shift"@ + seq!['+'] + key =~= "shift+"@ + key);
    assert(empty + key =~= key);
    let b = (if mods.super_ {
        "super+"@
    } else {
        empty
    }) + a;
    lemma_first_part("super"@, a);
    assert("super"@ + seq!['+'] + a =~= "super+"@ + a);
    assert(empty + a =~= a);
    let c = (if mods.alt {
        "alt+"@
    } else {
        empty
    }) + b;
    lemma_first_part("alt"@, b);
    assert("alt"@ + seq!['+'] + b =~= "alt+"@ + b);
    assert(empty + b =~= b);
    let d = (if mods.ctrl {
        "ctrl+"@
    } else {
        empty
    }) + c;
    lemma_first_part("ctrl"@, c);
    assert("ctrl"@ + seq!['+'] + c =~= "ctrl+"@ + c);
    assert(empty + c =~= c);
    assert(mods_prefix(mods) + key =~= d);
    assert(split_at_each(d, '+') =~= modifier_parts(mods).push(key));
}

/// A combination that is written as key events are looked up stays as it is, so
/// that it is found under what is held and the key.
pub proof fn law_lookup_order_is_kept(mods: Mods, key: Seq<char>)
    requires
        !key.contains('+'),
    ensures
        canonical(mods_prefix(mods) + key) == mods_prefix(mods) + key,
{
    let all = mods_prefix(mods) + key;
    let parts = split_at_each(all, '+');
    lemma_prefix_parts(mods, key);
    let held = parts.drop_last();
    assert(held =~= modifier_parts(mods));
    assert(parts.last() == key);
    reveal_strlit("ctrl");
    reveal_strlit("alt");
    reveal_strlit("super");
    reveal_strlit("shift");
    assert("ctrl"@.len() == 4 && "alt"@.len() == 3 && "super"@.len() == 5 && "shift"@.len() == 5);
    assert("super"@[1] == 'u' && "shift"@[1] == 'h');
    if mods.ctrl {
        assert(held[0] == "ctrl"@);
    }
    let n1: int = if mods.ctrl {
        1
    } else {
        0
    };
    if mods.alt {
        assert(held[n1] == "alt"@);
    }
    let n2: int = if mods.alt {
        n1 + 1
    } else {
        n1
    };
    if mods.super_ {
        assert(held[n2] == "super"@);
    }
    let n3: int = if mods.super_ {
        n2 + 1
    } else {
        n2
    };
    if mods.shift {
        assert(held[n3] == "shift"@);
    }
    assert(named_mods(held) == mods);
}

/// A combination with a part before its key that is no modifier stays as it is.
pub proof fn law_other_parts_are_kept(combination: Seq<char>, i: int)
    requires
        0 <= i < split_at_each(combination, '+').len() - 1,
        ({
            let part = split_at_each(combination, '+')[i];
            part != "ctrl"@ && part != "alt"@ && part != "super"@ && part != "shift"@
        }),
    ensures
        canonical(combination) == combination,
{
    let held = split_at_each(combination, '+').drop_last();
    assert(held[i] == split_at_each(combination, '+')[i]);
    assert(!is_modifier(held[i]));
}

/// The default bindings are all of these.
pub proof fn law_default_bindings()
    ensures
        ({
            let table = table_of(default_pairs());
            &&& table.contains_key("ctrl+shift+e"@) && table["ctrl+shift+e"@] == "split_right"@
            &&& table.contains_key("ctrl+shift+o"@) && table["ctrl+shift+o"@] == "split_below"@
            &&& table.contains_key("ctrl+shift+x"@) && table["ctrl+shift+x"@] == "close_pane"@
            &&& table.contains_key("ctrl+shift+]"@) && table["ctrl+shift+]"@] == "next_pane"@
            &&& table.contains_key("ctrl+shift+["@) && table["ctrl+shift+["@] == "prev_pane"@
            &&& table.contains_key("ctrl+alt+up"@) && table["ctrl+alt+up"@] == "focus_pane_up"@
            &&& table.contains_key("ctrl+alt+down"@) && table["ctrl+alt+down"@] == "focus_pane_down"@
            &&& table.contains_key("ctrl+alt+left"@) && table["ctrl+alt+left"@] == "focus_pane_left"@
            &&& table.contains_key("ctrl+alt+right"@) && table["ctrl+alt+right"@] == "focus_pane_right"@
            &&& table.contains_key("ctrl+shift+f"@) && table["ctrl+shift+f"@] == "search"@
            &&& table.contains_key("ctrl+shift+f2"@) && table["ctrl+shift+f2"@] == "search"@
            &&& table.contains_key("ctrl+shift+enter"@) && table["ctrl+shift+enter"@] == "search_next"@
            &&& table.contains_key("ctrl+shift+g"@) && table["ctrl+shift+g"@] == "search_next"@
            &&& table.contains_key("ctrl+shift+h"@) && table["ctrl+shift+h"@] == "search_prev"@
            &&& table.contains_key("ctrl+shift+p"@) && table["ctrl+shift+p"@] == "command"@
            &&& table.contains_key("ctrl+shift+up"@) && table["ctrl+shift+up"@] == "scroll_up"@
            &&& table.contains_key("ctrl+shift+down"@) && table["ctrl+shift+down"@] == "scroll_down"@
            &&& table.contains_key("ctrl+shift+pageup"@) && table["ctrl+shift+pageup"@] == "page_up"@
            &&& table.contains_key("ctrl+shift+pagedown"@) && table["ctrl+shift+pagedown"@] == "page_down"@
            &&& table.contains_key("ctrl+shift+home"@) && table["ctrl+shift+home"@] == "scroll_top"@
            &&& table.contains_key("ctrl+shift+end"@) && table["ctrl+shift+end"@] == "scroll_bottom"@
            &&& table.contains_key("ctrl+shift+c"@) && table["ctrl+shift+c"@] == "copy"@
            &&& table.contains_key("ctrl+shift+v"@) && table["ctrl+shift+v"@] == "paste"@
            &&& table.contains_key("ctrl+plus"@) && table["ctrl+plus"@] == "font_increase"@
            &&& table.contains_key("ctrl+minus"@) && table["ctrl+minus"@] == "font_decrease"@
            &&& table.contains_key("ctrl+0"@) && table["ctrl+0"@] == "font_reset"@
            &&& table.contains_key("ctrl+shift+q"@) && table["ctrl+shift+q"@] == "quit"@
        }),
{
    lemma_default_combinations_differ();
    let pairs = default_pairs();
    lemma_table_entry(pairs, 0);
    lemma_table_entry(pairs, 1);
    lemma_table_entry(pairs, 2);
    lemma_table_entry(pairs, 3);
    lemma_table_entry(pairs, 4);
    lemma_table_entry(pairs, 5);
    lemma_table_entry(pairs, 6);
    lemma_table_entry(pairs, 7);
    lemma_table_entry(pairs, 8);
    lemma_table_entry(pairs, 9);
    lemma_table_entry(pairs, 10);
    lemma_table_entry(pairs, 11);
    lemma_table_entry(pairs, 12);
    lemma_table_entry(pairs, 13);
    lemma_table_entry(pairs, 14);
    lemma_table_entry(pairs, 15);
    lemma_table_entry(pairs, 16);
    lemma_table_entry(pairs, 17);
    lemma_table_entry(pairs, 18);
    lemma_table_entry(pairs, 19);
    lemma_table_entry(pairs, 20);
    lemma_table_entry(pairs, 21);
    lemma_table_entry(pairs, 22);
    lemma_table_entry(pairs, 23);
    lemma_table_entry(pairs, 24);
    lemma_table_entry(pairs, 25);
    lemma_table_entry(pairs, 26);
}

/// No combination is bound twice by default.
proof fn lemma_default_combinations_differ()
    ensures
        forall|i: int, j: int|
            0 <= i < j < default_pairs().len() ==> (#[trigger] default_pairs()[i]).0 != (
            #[trigger] default_pairs()[j]).0,
{
    reveal_strlit("ctrl+shift+e");
    assert("ctrl+shift+e"@.len() == 12);
    reveal_strlit("ctrl+shift+o");
    assert("ctrl+shift+o"@.len() == 12);
    reveal_strlit("ctrl+shift+x");
    assert("ctrl+shift+x"@.len() == 12);
    reveal_strlit("ctrl+shift+]");
    assert("ctrl+shift+]"@.len() == 12);
    reveal_strlit("ctrl+shift+[");
    assert("ctrl+shift+["@.len() == 12);
    reveal_strlit("ctrl+alt+up");
    assert("ctrl+alt+up"@.len() == 11);
    reveal_strlit("ctrl+alt+down");
    assert("ctrl+alt+down"@.len() == 13);
    reveal_strlit("ctrl+alt+left");
    assert("ctrl+alt+left"@.len() == 13);
    reveal_strlit("ctrl+alt+right");
    assert("ctrl+alt+right"@.len() == 14);
    reveal_strlit("ctrl+shift+f");
    assert("ctrl+shift+f"@.len() == 12);
    reveal_strlit("ctrl+shift+f2");
    assert("ctrl+shift+f2"@.len() == 13);
    reveal_strlit("ctrl+shift+enter");
    assert("ctrl+shift+enter"@.len() == 16);
    reveal_strlit("ctrl+shift+g");
    assert("ctrl+shift+g"@.len() == 12);
    reveal_strlit("ctrl+shift+h");
    assert("ctrl+shift+h"@.len() == 12);
    reveal_strlit("ctrl+shift+p");
    assert("ctrl+shift+p"@.len() == 12);
    reveal_strlit("ctrl+shift+up");
    assert("ctrl+shift+up"@.len() == 13);
    reveal_strlit("ctrl+shift+down");
    assert("ctrl+shift+down"@.len() == 15);
    reveal_strlit("ctrl+shift+pageup");
    assert("ctrl+shift+pageup"@.len() == 17);
    reveal_strlit("ctrl+shift+pagedown");
    assert("ctrl+shift+pagedown"@.len() == 19);
    reveal_strlit("ctrl+shift+home");
    assert("ctrl+shift+home"@.len() == 15);
    reveal_strlit("ctrl+shift+end");
    assert("ctrl+shift+end"@.len() == 14);
    reveal_strlit("ctrl+shift+c");
    assert("ctrl+shift+c"@.len() == 12);
    reveal_strlit("ctrl+shift+v");
    assert("ctrl+shift+v"@.len() == 12);
    reveal_strlit("ctrl+plus");
    assert("ctrl+plus"@.len() == 9);
    reveal_strlit("ctrl+minus");
    assert("ctrl+minus"@.len() == 10);
    reveal_strlit("ctrl+0");
    assert("ctrl+0"@.len() == 6);
    reveal_strlit("ctrl+shift+q");
    assert("ctrl+shift+q"@.len() == 12);
    assert("ctrl+shift+e"@[11] == 'e');
    assert("ctrl+shift+o"@[11] == 'o');
    assert("ctrl+shift+x"@[11] == 'x');
    assert("ctrl+shift+]"@[11] == ']');
    assert("ctrl+shift+["@[11] == '[');
    assert("ctrl+shift+f"@[11] == 'f');
    assert("ctrl+shift+g"@[11] == 'g');
    assert("ctrl+shift+h"@[11] == 'h');
    assert("ctrl+shift+p"@[11] == 'p');
    assert("ctrl+shift+c"@[11] == 'c');
    assert("ctrl+shift+v"@[11] == 'v');
    assert("ctrl+shift+q"@[11] == 'q');
    assert("ctrl+alt+down"@[12] == 'n');
    assert("ctrl+alt+left"@[12] == 't');
    assert("ctrl+shift+f2"@[12] == '2');
    assert("ctrl+shift+up"@[12] == 'p');
    assert("ctrl+alt+right"@[5] == 'a');
    assert("ctrl+shift+end"@[5] == 's');
    assert("ctrl+shift+down"@[11] == 'd');
    assert("ctrl+shift+home"@[11] == 'h');
}

/// Every default binding names an action.
pub proof fn law_default_actions_are_known(i: int)
    requires
        0 <= i < default_pairs().len(),
    ensures
        action_named(default_pairs()[i].1) is Some,
{
}

} // verus!
