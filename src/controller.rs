use vstd::prelude::*;

use crate::keys::{
    edited, is_cancel, is_char, is_commit, is_down, is_first, is_last, is_open, is_quit, is_up, Key,
    KeyCode,
};
use crate::log::{
    insert_ordered, lemma_leading_not_older, leading_not_older, now_micros, sort_by_created,
    sorted_desc, Item,
};
use crate::text::{
    backspace, contains_text, ctrl_backspace_remaining, has_text, push_char, word_backspace,
};

verus! {

/// Whether some entry of `s` has identifier `id`.
pub open spec fn has_id(s: Seq<Item>, id: u128) -> bool {
    exists|i: int| 0 <= i < s.len() && s[i].id == id
}

/// `i` is the first index of `s` whose entry has identifier `id`.
pub open spec fn first_with_id(s: Seq<Item>, id: u128, i: int) -> bool {
    0 <= i < s.len() && s[i].id == id && forall|j: int| 0 <= j < i ==> s[j].id != id
}

/// `t` is `s` with the content of entry `i` replaced by `content`; its
/// identifier and creation time stay.
pub open spec fn updated_at(s: Seq<Item>, t: Seq<Item>, i: int, content: Seq<char>) -> bool {
    &&& 0 <= i < s.len()
    &&& t.len() == s.len()
    &&& forall|j: int| 0 <= j < s.len() && j != i ==> t[j] == s[j]
    &&& t[i].id == s[i].id
    &&& t[i].created == s[i].created
    &&& t[i].content@ == content
}

/// `s` without the entries whose identifier is `id`, in the same order.
pub open spec fn without_id(s: Seq<Item>, id: u128) -> Seq<Item>
    decreases s.len(),
{
    if s.len() == 0 {
        s
    } else {
        let r = without_id(s.drop_last(), id);
        if s.last().id != id {
            r.push(s.last())
        } else {
            r
        }
    }
}

/// A selection brought within a list of `len` entries.
pub open spec fn clamp(sel: Option<usize>, len: nat) -> Option<usize> {
    if len == 0 {
        None
    } else {
        match sel {
            None => None,
            Some(i) => Some(
                if i < len {
                    i
                } else {
                    (len - 1) as usize
                },
            ),
        }
    }
}

/// The selection after moving down: the first entry when nothing is selected,
/// no further than the last.
pub open spec fn next_sel(sel: Option<usize>, len: nat) -> Option<usize> {
    if len == 0 {
        None
    } else {
        match sel {
            None => Some(0),
            Some(i) => Some(
                if i + 1 < len {
                    (i + 1) as usize
                } else {
                    (len - 1) as usize
                },
            ),
        }
    }
}

/// The selection after moving up: the last entry when nothing is selected,
/// no further than the first.
pub open spec fn prev_sel(sel: Option<usize>, len: nat) -> Option<usize> {
    if len == 0 {
        None
    } else {
        match sel {
            None => Some((len - 1) as usize),
            Some(i) => Some(
                if i == 0 {
                    0
                } else {
                    (i - 1) as usize
                },
            ),
        }
    }
}

pub open spec fn first_sel(len: nat) -> Option<usize> {
    if len == 0 {
        None
    } else {
        Some(0)
    }
}

pub open spec fn last_sel(len: nat) -> Option<usize> {
    if len == 0 {
        None
    } else {
        Some((len - 1) as usize)
    }
}

/// `n` is `o` after committing `item`: the entry with its identifier gets its
/// content, or `item` joins the store in creation order; editing ends, the
/// committed entry is selected and nothing stays armed for deletion.
pub open spec fn committed(o: &App, n: &App, item: Item) -> bool {
    &&& n.edit is None
    &&& n.exit == o.exit
    &&& n.delete is None
    &&& has_id(o.logs@, item.id) ==> exists|i: int|
        first_with_id(o.logs@, item.id, i) && updated_at(o.logs@, n.logs@, i, item.content@)
    &&& !has_id(o.logs@, item.id) ==> n.logs@ == insert_ordered(o.logs@, item)
    &&& n.selected matches Some(k) && k < n.logs.len() && n.logs@[k as int].id == item.id
}

/// The work log with its browsing and editing state.
///
/// `logs` is the store, newest entry first. `edit` holds the buffer while an
/// entry is being edited (editing mode); `delete` is the index armed for
/// deletion; `selected` is the highlighted index.
#[derive(Debug)]
pub struct App {
    pub logs: Vec<Item>,
    pub exit: bool,
    pub edit: Option<Item>,
    pub delete: Option<usize>,
    pub selected: Option<usize>,
}

impl App {
    /// The store is sorted and both indices point into it.
    pub open spec fn wf(&self) -> bool {
        &&& sorted_desc(self.logs@)
        &&& (self.selected matches Some(i) ==> i < self.logs.len())
        &&& (self.delete matches Some(d) ==> d < self.logs.len())
    }

    /// The edit buffer holds a fresh, empty entry.
    pub open spec fn fresh_edit(&self) -> bool {
        self.edit matches Some(e) && e.content@.len() == 0 && e.created == e.modified
    }

    /// Everything but the store and the edit buffer is as in `o`.
    pub open spec fn same_marks(&self, o: &App) -> bool {
        self.exit == o.exit && self.delete == o.delete && self.selected == o.selected
    }

    /// The first index whose entry has identifier `id`.
    pub fn position(&self, id: u128) -> (r: Option<usize>)
        ensures
            r matches Some(i) ==> first_with_id(self.logs@, id, i as int),
            r is None <==> !has_id(self.logs@, id),
    {
        let mut i: usize = 0;
        while i < self.logs.len()
            invariant
                i <= self.logs.len(),
                forall|j: int| 0 <= j < i ==> self.logs@[j].id != id,
            decreases self.logs.len() - i,
        {
            if self.logs[i].id == id {
                return Some(i);
            }
            i = i + 1;
        }
        None
    }
}

/// Where an entry created at `created` goes in `logs`: after the entries
/// created at or after it.
fn insertion_point(logs: &Vec<Item>, created: i64) -> (p: usize)
    requires
        sorted_desc(logs@),
    ensures
        p <= logs.len(),
        forall|j: int| 0 <= j < p ==> logs@[j].created >= created,
        forall|j: int| p <= j < logs.len() ==> logs@[j].created < created,
        p == leading_not_older(logs@, created),
{
    let mut p: usize = 0;
    while p < logs.len() && logs[p].created >= created
        invariant
            p <= logs.len(),
            forall|j: int| 0 <= j < p ==> logs@[j].created >= created,
        decreases logs.len() - p,
    {
        p = p + 1;
    }
    proof {
        lemma_leading_not_older(logs@, created, p as int);
    }
    p
}

proof fn lemma_insert_sorted(s: Seq<Item>, e: Item, p: int)
    requires
        sorted_desc(s),
        0 <= p <= s.len(),
        forall|j: int| 0 <= j < p ==> s[j].created >= e.created,
        forall|j: int| p <= j < s.len() ==> s[j].created < e.created,
    ensures
        sorted_desc(s.insert(p, e)),
{
    let r = s.insert(p, e);
    assert forall|i: int, j: int| 0 <= i < j < r.len() implies r[i].created >= r[j].created by {
        if j < p {
        } else if j == p {
        } else if i < p {
        } else if i == p {
            assert(r[j] == s[j - 1]);
        } else {
            assert(r[i] == s[i - 1] && r[j] == s[j - 1]);
        }
    }
}

/// Places `item` into the sorted `logs`, after the entries created at or
/// after it.
fn insert_in_order(logs: &mut Vec<Item>, item: Item)
    requires
        sorted_desc(old(logs)@),
    ensures
        sorted_desc(final(logs)@),
        final(logs)@ == insert_ordered(old(logs)@, item),
        final(logs).len() == old(logs).len() + 1,
{
    let p = insertion_point(logs, item.created);
    proof {
        lemma_insert_sorted(logs@, item, p as int);
    }
    logs.insert(p, item);
}

/// A store sorted newest first stays so when an entry is added in order or
/// when the content of one of its entries is replaced.
pub proof fn lemma_store_stays_sorted(
    s: Seq<Item>,
    e: Item,
    t: Seq<Item>,
    i: int,
    content: Seq<char>,
)
    requires
        sorted_desc(s),
    ensures
        sorted_desc(insert_ordered(s, e)),
        updated_at(s, t, i, content) ==> sorted_desc(t),
{
    let p = leading_not_older(s, e.created) as int;
    lemma_leading_bounds(s, e.created);
    lemma_insert_sorted(s, e, p);
    if updated_at(s, t, i, content) {
        assert forall|a: int, b: int| 0 <= a < b < t.len() implies t[a].created >= t[b].created by {
            assert(s[a].created >= s[b].created);
        }
    }
}

/// The leading entries of a sorted store created at or after `c` are followed
/// only by older ones.
proof fn lemma_leading_bounds(s: Seq<Item>, c: i64)
    requires
        sorted_desc(s),
    ensures
        leading_not_older(s, c) <= s.len(),
        forall|j: int| 0 <= j < leading_not_older(s, c) ==> s[j].created >= c,
        forall|j: int| leading_not_older(s, c) <= j < s.len() ==> s[j].created < c,
    decreases s.len(),
{
    if s.len() > 0 && s[0].created >= c {
        let t = s.drop_first();
        assert(sorted_desc(t)) by {
            assert forall|a: int, b: int| 0 <= a < b < t.len() implies t[a].created
                >= t[b].created by {
                assert(t[a] == s[a + 1] && t[b] == s[b + 1]);
            }
        }
        lemma_leading_bounds(t, c);
        assert forall|j: int| 0 <= j < leading_not_older(s, c) implies s[j].created >= c by {
            if j > 0 {
                assert(s[j] == t[j - 1]);
            }
        }
        assert forall|j: int| leading_not_older(s, c) <= j < s.len() implies s[j].created < c by {
            assert(s[j] == t[j - 1]);
        }
    } else if s.len() > 0 {
        assert forall|j: int| 0 <= j < s.len() implies s[j].created < c by {
            if j > 0 {
                assert(s[0].created >= s[j].created);
            }
        }
    }
}

proof fn lemma_without_id_sorted(s: Seq<Item>, id: u128)
    requires
        sorted_desc(s),
    ensures
        sorted_desc(without_id(s, id)),
        forall|k: int|
            0 <= k < without_id(s, id).len() ==> exists|j: int|
                0 <= j < s.len() && #[trigger] without_id(s, id)[k] == s[j],
        without_id(s, id).len() <= s.len(),
    decreases s.len(),
{
    if s.len() > 0 {
        let d = s.drop_last();
        lemma_without_id_sorted(d, id);
        let r = without_id(d, id);
        assert forall|k: int| 0 <= k < r.len() implies r[k].created >= s.last().created by {
            let j = choose|j: int| 0 <= j < d.len() && r[k] == d[j];
            assert(d[j] == s[j]);
        }
        if s.last().id != id {
            let t = r.push(s.last());
            assert forall|k: int| 0 <= k < t.len() implies exists|j: int|
                0 <= j < s.len() && #[trigger] t[k] == s[j] by {
                if k < r.len() {
                    let j = choose|j: int| 0 <= j < d.len() && r[k] == d[j];
                    assert(t[k] == s[j]);
                } else {
                    assert(t[k] == s[s.len() - 1]);
                }
            }
        } else {
            assert forall|k: int| 0 <= k < r.len() implies exists|j: int|
                0 <= j < s.len() && #[trigger] r[k] == s[j] by {
                let j = choose|j: int| 0 <= j < d.len() && r[k] == d[j];
                assert(r[k] == s[j]);
            }
        }
    }
}

proof fn lemma_without_id_push(s: Seq<Item>, e: Item, id: u128)
    ensures
        without_id(s.push(e), id) == if e.id != id {
            without_id(s, id).push(e)
        } else {
            without_id(s, id)
        },
{
    assert(s.push(e).drop_last() =~= s);
}

/// Removing the entries with one identifier twice leaves what removing them
/// once left: the second removal finds nothing.
pub proof fn lemma_remove_idempotent(s: Seq<Item>, id: u128)
    ensures
        without_id(without_id(s, id), id) == without_id(s, id),
        !has_id(without_id(s, id), id),
    decreases s.len(),
{
    if s.len() > 0 {
        let d = s.drop_last();
        lemma_remove_idempotent(d, id);
        if s.last().id != id {
            lemma_without_id_push(without_id(d, id), s.last(), id);
            let r = without_id(d, id).push(s.last());
            assert forall|i: int| 0 <= i < r.len() implies r[i].id != id by {
                if i < r.len() - 1 {
                    assert(!has_id(without_id(d, id), id));
                }
            }
        }
    }
}

impl App {
    /// The state at start: the given entries newest first, browsing, the
    /// first entry selected if there is one.
    pub fn new(logs: Vec<Item>) -> (r: App)
        ensures
            r.wf(),
            r.logs@ == sort_by_created(logs@),
            r.logs@.to_multiset() == logs@.to_multiset(),
            !r.exit,
            r.edit is None,
            r.delete is None,
            r.selected == if logs.len() == 0 {
                None::<usize>
            } else {
                Some(0usize)
            },
    {
        let mut sorted: Vec<Item> = Vec::new();
        let mut i: usize = 0;
        proof {
            broadcast use vstd::seq_lib::group_to_multiset_ensures;

            assert(logs@.subrange(0, 0) =~= Seq::<Item>::empty());
            assert(sorted@ =~= Seq::<Item>::empty());
        }
        while i < logs.len()
            invariant
                i <= logs.len(),
                sorted.len() == i,
                sorted_desc(sorted@),
                sorted@ == sort_by_created(logs@.subrange(0, i as int)),
                sorted@.to_multiset() == logs@.subrange(0, i as int).to_multiset(),
            decreases logs.len() - i,
        {
            broadcast use vstd::seq_lib::group_to_multiset_ensures;

            let e = logs[i].duplicate();
            let p = insertion_point(&sorted, e.created);
            proof {
                lemma_insert_sorted(sorted@, e, p as int);
                let ins = sorted@.insert(p as int, e);
                assert(ins.remove(p as int) =~= sorted@);
                assert(ins.to_multiset() =~= sorted@.to_multiset().insert(e));
                assert(logs@.subrange(0, i + 1) =~= logs@.subrange(0, i as int).push(e));
                assert(logs@.subrange(0, i + 1).drop_last() =~= logs@.subrange(0, i as int));
            }
            sorted.insert(p, e);
            i = i + 1;
        }
        assert(logs@.subrange(0, i as int) =~= logs@);
        let selected = if sorted.len() == 0 {
            None
        } else {
            Some(0)
        };
        App { logs: sorted, exit: false, edit: None, delete: None, selected }
    }

    /// Adds `item`, keeping the store newest first.
    pub fn add(&mut self, item: Item)
        requires
            old(self).wf(),
        ensures
            final(self).wf(),
            final(self).logs@ == insert_ordered(old(self).logs@, item),
            final(self).same_marks(old(self)),
            final(self).edit == old(self).edit,
    {
        insert_in_order(&mut self.logs, item);
    }

    /// Replaces the content of the first entry with identifier `id` and stamps
    /// its `modified` with `now`; without such an entry nothing changes.
    pub fn update_at(&mut self, id: u128, content: String, now: i64)
        requires
            old(self).wf(),
        ensures
            final(self).wf(),
            !has_id(old(self).logs@, id) ==> *final(self) == *old(self),
            has_id(old(self).logs@, id) ==> exists|i: int|
                first_with_id(old(self).logs@, id, i) && updated_at(
                    old(self).logs@,
                    final(self).logs@,
                    i,
                    content@,
                ) && final(self).logs@[i].modified == now,
            final(self).same_marks(old(self)),
            final(self).edit == old(self).edit,
    {
        match self.position(id) {
            None => {},
            Some(i) => {
                let mut e = self.logs[i].duplicate();
                e.set_content(content, now);
                self.logs.set(i, e);
                assert(updated_at(old(self).logs@, self.logs@, i as int, content@));
            },
        }
    }

    /// Replaces the content of the first entry with identifier `id` and stamps
    /// its `modified` with the current time; without such an entry nothing
    /// changes.
    pub fn update(&mut self, id: u128, content: String)
        requires
            old(self).wf(),
        ensures
            final(self).wf(),
            !has_id(old(self).logs@, id) ==> *final(self) == *old(self),
            has_id(old(self).logs@, id) ==> exists|i: int|
                first_with_id(old(self).logs@, id, i) && updated_at(
                    old(self).logs@,
                    final(self).logs@,
                    i,
                    content@,
                ),
            final(self).same_marks(old(self)),
            final(self).edit == old(self).edit,
    {
        self.update_at(id, content, now_micros());
    }

    /// Drops every entry with identifier `id` and keeps the selection and the
    /// armed index inside the shorter store.
    pub fn remove(&mut self, id: u128)
        requires
            old(self).wf(),
        ensures
            final(self).wf(),
            final(self).logs@ == without_id(old(self).logs@, id),
            final(self).selected == clamp(old(self).selected, final(self).logs.len() as nat),
            final(self).delete == match old(self).delete {
                Some(d) => if d < final(self).logs.len() {
                    Some(d)
                } else {
                    None
                },
                None => None,
            },
            final(self).exit == old(self).exit,
            final(self).edit == old(self).edit,
    {
        let mut kept: Vec<Item> = Vec::new();
        let mut i: usize = 0;
        while i < self.logs.len()
            invariant
                i <= self.logs.len(),
                kept@ == without_id(self.logs@.subrange(0, i as int), id),
            decreases self.logs.len() - i,
        {
            let ghost pre = self.logs@.subrange(0, i as int);
            assert(self.logs@.subrange(0, i + 1) == pre.push(self.logs@[i as int]));
            proof {
                lemma_without_id_push(pre, self.logs@[i as int], id);
            }
            if self.logs[i].id != id {
                kept.push(self.logs[i].duplicate());
            }
            i = i + 1;
        }
        assert(self.logs@.subrange(0, i as int) == self.logs@);
        proof {
            lemma_without_id_sorted(self.logs@, id);
        }
        self.logs = kept;
        let len = self.logs.len();
        self.selected = match self.selected {
            None => None,
            Some(s) => if len == 0 {
                None
            } else if s < len {
                Some(s)
            } else {
                Some(len - 1)
            },
        };
        self.delete = match self.delete {
            Some(d) => if d < len {
                Some(d)
            } else {
                None
            },
            None => None,
        };
    }
}

impl App {
    /// Writes `item` into the store (see `committed`).
    fn commit(&mut self, item: Item)
        requires
            old(self).wf(),
        ensures
            final(self).wf(),
            committed(old(self), final(self), item),
    {
        let id = item.id;
        match self.position(id) {
            Some(i) => {
                self.update(id, item.content);
                self.selected = Some(i);
            },
            None => {
                let p = insertion_point(&self.logs, item.created);
                proof {
                    lemma_insert_sorted(self.logs@, item, p as int);
                }
                self.logs.insert(p, item);
                self.selected = Some(p);
            },
        }
        self.edit = None;
        self.delete = None;
    }

    /// Puts `item` with content `content` into the edit buffer.
    fn edit_to(&mut self, item: Item, content: String)
        ensures
            final(self).logs@ == old(self).logs@,
            final(self).same_marks(old(self)),
            final(self).edit matches Some(e) && e.id == item.id && e.created == item.created
                && e.content@ == content@,
    {
        let mut e = item;
        e.update(content);
        self.edit = Some(e);
    }

    /// Backspace on `item` into the edit buffer; nothing changes when its
    /// content is empty.
    fn backspace_into(&mut self, item: Item, ctrl: bool)
        ensures
            final(self).logs@ == old(self).logs@,
            final(self).same_marks(old(self)),
            item.content@.len() == 0 ==> final(self).edit == old(self).edit,
            item.content@.len() > 0 ==> (final(self).edit matches Some(e) && e.id == item.id
                && e.created == item.created && e.content@ == if ctrl {
                word_backspace(item.content@)
            } else {
                item.content@.drop_last()
            }),
    {
        if let Some(e) = handle_backspace(item, ctrl) {
            self.edit = Some(e);
        }
    }

    /// One key press while editing `item`, the content of the edit buffer.
    /// Returns whether the store changed and is to be saved.
    pub fn handle_edit_keys(&mut self, key: Key, item: Item) -> (persist: bool)
        requires
            old(self).wf(),
        ensures
            final(self).wf(),
            edit_step(*old(self), *final(self), key, item, persist),
    {
        let ctrl = key.ctrl;
        match key.code {
            KeyCode::Backspace => {
                self.backspace_into(item, ctrl);
                false
            },
            KeyCode::Esc => {
                self.edit = None;
                false
            },
            KeyCode::Enter => {
                if ctrl {
                    self.commit_if_text(item)
                } else {
                    let mut t = item.content.clone();
                    push_char(&mut t, '\n');
                    self.edit_to(item, t);
                    false
                }
            },
            KeyCode::Char(c) => {
                if ctrl && c == 'o' {
                    self.commit_if_text(item)
                } else if ctrl && c == 'h' {
                    self.backspace_into(item, true);
                    false
                } else if ctrl && c == 'c' {
                    self.edit = None;
                    false
                } else {
                    let mut t = item.content.clone();
                    push_char(&mut t, c);
                    self.edit_to(item, t);
                    false
                }
            },
            _ => false,
        }
    }

    /// Commits `item` when its content holds more than newlines and tabs;
    /// otherwise nothing changes.
    fn commit_if_text(&mut self, item: Item) -> (persist: bool)
        requires
            old(self).wf(),
        ensures
            final(self).wf(),
            persist == has_text(item.content@),
            persist ==> committed(old(self), final(self), item),
            !persist ==> *final(self) == *old(self),
    {
        if contains_text(&item.content) {
            self.commit(item);
            true
        } else {
            false
        }
    }
}

/// Backspace on the content of `item`, a word at a time with `ctrl`; `None`
/// when the content is empty.
pub fn handle_backspace(item: Item, ctrl: bool) -> (r: Option<Item>)
    ensures
        r is None <==> item.content@.len() == 0,
        r matches Some(e) ==> e.id == item.id && e.created == item.created && e.content@ == if ctrl {
            word_backspace(item.content@)
        } else {
            item.content@.drop_last()
        },
{
    let n = item.content.as_str().unicode_len();
    if n == 0 {
        return None;
    }
    let t = if ctrl {
        ctrl_backspace_remaining(&item.content)
    } else {
        backspace(&item.content)
    };
    let mut e = item;
    e.update(t);
    Some(e)
}

/// `n` is `o` after the key `key` while editing `item`, the content of the
/// edit buffer; `persist` says whether the store changed.
pub open spec fn edit_step(o: App, n: App, key: Key, item: Item, persist: bool) -> bool {
    &&& persist <==> is_commit(key) && has_text(item.content@)
    &&& is_commit(key) && has_text(item.content@) ==> committed(&o, &n, item)
    &&& is_commit(key) && !has_text(item.content@) ==> n == o
    &&& !is_commit(key) ==> n.logs@ == o.logs@ && n.same_marks(&o)
    &&& !is_commit(key) && is_cancel(key) ==> n.edit is None
    &&& !is_commit(key) && !is_cancel(key) ==> match edited(key, item.content@) {
        None => n.edit == o.edit,
        Some(t) => (n.edit matches Some(e) && e.id == item.id && e.created == item.created
            && e.content@ == t),
    }
}

/// `n` is `o` after the key `key` while browsing; `persist` says whether the
/// store changed.
pub open spec fn main_step(o: App, n: App, key: Key, persist: bool) -> bool {
    &&& !is_char(key, 'd') ==> !persist && n.logs@ == o.logs@
    &&& is_quit(key) ==> n.exit && n.edit == o.edit && n.delete == o.delete && n.selected
        == o.selected
    &&& !is_quit(key) ==> n.exit == o.exit
    &&& is_open(key) ==> n.delete is None && n.selected == o.selected && match o.selected {
        Some(i) => n.edit == Some(o.logs@[i as int]),
        None => n.fresh_edit(),
    }
    &&& is_char(key, 'o') ==> n.delete is None && n.selected == o.selected && n.fresh_edit()
    &&& is_down(key) ==> n.delete is None && n.edit == o.edit && n.selected == next_sel(
        o.selected,
        o.logs.len() as nat,
    )
    &&& is_up(key) ==> n.delete is None && n.edit == o.edit && n.selected == prev_sel(
        o.selected,
        o.logs.len() as nat,
    )
    &&& is_first(key) ==> n.delete is None && n.edit == o.edit && n.selected == first_sel(
        o.logs.len() as nat,
    )
    &&& is_last(key) ==> n.delete is None && n.edit == o.edit && n.selected == last_sel(
        o.logs.len() as nat,
    )
    &&& is_char(key, 'd') ==> n.edit == o.edit && match o.selected {
        None => !persist && n.logs@ == o.logs@ && n.delete is None && n.selected is None,
        Some(c) => if o.delete == Some(c) {
            persist && n.logs@ == without_id(o.logs@, o.logs@[c as int].id) && n.delete is None
                && n.selected == clamp(Some(c), n.logs.len() as nat)
        } else {
            !persist && n.logs@ == o.logs@ && n.delete == Some(c) && n.selected == Some(c)
        },
    }
    &&& is_unbound(key) ==> n == o
}

/// Browsing: a key that none of the bindings takes.
pub open spec fn is_unbound(k: Key) -> bool {
    !is_quit(k) && !is_open(k) && !is_down(k) && !is_up(k) && !is_first(k) && !is_last(k)
        && !is_char(k, 'o') && !is_char(k, 'd')
}

impl App {
    /// One key press while browsing. Returns whether the store changed and is
    /// to be saved.
    pub fn handle_main_keys(&mut self, key: Key) -> (persist: bool)
        requires
            old(self).wf(),
        ensures
            final(self).wf(),
            main_step(*old(self), *final(self), key, persist),
    {
        let len = self.logs.len();
        match key.code {
            KeyCode::Esc => {
                self.exit = true;
                false
            },
            KeyCode::Enter => {
                self.open_selected();
                false
            },
            KeyCode::Down => {
                self.select_next();
                false
            },
            KeyCode::Up => {
                self.select_previous();
                false
            },
            KeyCode::Home => {
                self.selected = if len == 0 {
                    None
                } else {
                    Some(0)
                };
                self.delete = None;
                false
            },
            KeyCode::End => {
                self.selected = if len == 0 {
                    None
                } else {
                    Some(len - 1)
                };
                self.delete = None;
                false
            },
            KeyCode::Char(c) => {
                if c == 'q' {
                    self.exit = true;
                    false
                } else if c == 'e' || c == ' ' {
                    self.open_selected();
                    false
                } else if c == 'j' {
                    self.select_next();
                    false
                } else if c == 'k' {
                    self.select_previous();
                    false
                } else if c == 'g' {
                    self.selected = if len == 0 {
                        None
                    } else {
                        Some(0)
                    };
                    self.delete = None;
                    false
                } else if c == 'G' {
                    self.selected = if len == 0 {
                        None
                    } else {
                        Some(len - 1)
                    };
                    self.delete = None;
                    false
                } else if c == 'o' {
                    self.edit = Some(Item::new());
                    self.delete = None;
                    false
                } else if c == 'd' {
                    self.press_delete()
                } else {
                    false
                }
            },
            _ => false,
        }
    }

    /// Opens the selected entry in the edit buffer, or a fresh one when
    /// nothing is selected.
    fn open_selected(&mut self)
        requires
            old(self).wf(),
        ensures
            final(self).wf(),
            final(self).logs@ == old(self).logs@,
            final(self).exit == old(self).exit,
            final(self).selected == old(self).selected,
            final(self).delete is None,
            match old(self).selected {
                Some(i) => final(self).edit == Some(old(self).logs@[i as int]),
                None => final(self).fresh_edit(),
            },
    {
        match self.selected {
            Some(i) => {
                self.edit = Some(self.logs[i].duplicate());
            },
            None => {
                self.edit = Some(Item::new());
            },
        }
        self.delete = None;
    }

    fn select_next(&mut self)
        requires
            old(self).wf(),
        ensures
            final(self).wf(),
            final(self).logs@ == old(self).logs@,
            final(self).exit == old(self).exit,
            final(self).edit == old(self).edit,
            final(self).delete is None,
            final(self).selected == next_sel(old(self).selected, old(self).logs.len() as nat),
    {
        let len = self.logs.len();
        self.selected = if len == 0 {
            None
        } else {
            match self.selected {
                None => Some(0),
                Some(i) => if i + 1 < len {
                    Some(i + 1)
                } else {
                    Some(len - 1)
                },
            }
        };
        self.delete = None;
    }

    fn select_previous(&mut self)
        requires
            old(self).wf(),
        ensures
            final(self).wf(),
            final(self).logs@ == old(self).logs@,
            final(self).exit == old(self).exit,
            final(self).edit == old(self).edit,
            final(self).delete is None,
            final(self).selected == prev_sel(old(self).selected, old(self).logs.len() as nat),
    {
        let len = self.logs.len();
        self.selected = if len == 0 {
            None
        } else {
            match self.selected {
                None => Some(len - 1),
                Some(i) => if i == 0 {
                    Some(0)
                } else {
                    Some(i - 1)
                },
            }
        };
        self.delete = None;
    }

    /// The delete key: arms the selected entry, or removes it when it is
    /// already armed.
    fn press_delete(&mut self) -> (persist: bool)
        requires
            old(self).wf(),
        ensures
            final(self).wf(),
            final(self).exit == old(self).exit,
            final(self).edit == old(self).edit,
            match old(self).selected {
                None => !persist && final(self).logs@ == old(self).logs@ && final(self).delete is None
                    && final(self).selected is None,
                Some(c) => if old(self).delete == Some(c) {
                    persist && final(self).logs@ == without_id(
                        old(self).logs@,
                        old(self).logs@[c as int].id,
                    ) && final(self).delete is None && final(self).selected == clamp(
                        Some(c),
                        final(self).logs.len() as nat,
                    )
                } else {
                    !persist && final(self).logs@ == old(self).logs@ && final(self).delete == Some(
                        c,
                    ) && final(self).selected == Some(c)
                },
            },
    {
        match self.selected {
            None => {
                self.delete = None;
                false
            },
            Some(c) => {
                if self.delete == Some(c) {
                    let id = self.logs[c].id;
                    self.delete = None;
                    self.remove(id);
                    true
                } else {
                    self.delete = Some(c);
                    false
                }
            },
        }
    }
}

impl App {
    /// One key press: with an entry in the edit buffer it goes to
    /// `handle_edit_keys` with that entry, otherwise to `handle_main_keys`.
    /// Returns whether the store changed and is to be saved.
    pub fn handle_key(&mut self, key: Key) -> (persist: bool)
        requires
            old(self).wf(),
        ensures
            final(self).wf(),
            match old(self).edit {
                Some(item) => edit_step(*old(self), *final(self), key, item, persist),
                None => main_step(*old(self), *final(self), key, persist),
            },
    {
        match &self.edit {
            Some(item) => {
                let current = item.duplicate();
                self.handle_edit_keys(key, current)
            },
            None => self.handle_main_keys(key),
        }
    }
}

/// No two entries of `s` share an identifier.
pub open spec fn unique_ids(s: Seq<Item>) -> bool {
    forall|i: int, j: int| 0 <= i < j < s.len() ==> s[i].id != s[j].id
}

proof fn lemma_without_absent_id(s: Seq<Item>, id: u128)
    requires
        !has_id(s, id),
    ensures
        without_id(s, id) == s,
    decreases s.len(),
{
    if s.len() > 0 {
        let d = s.drop_last();
        assert(!has_id(d, id)) by {
            if has_id(d, id) {
                let i = choose|i: int| 0 <= i < d.len() && d[i].id == id;
                assert(s[i] == d[i]);
            }
        }
        lemma_without_absent_id(d, id);
        assert(d.push(s.last()) =~= s);
    }
}

/// With unique identifiers, removing the identifier of entry `c` removes
/// exactly that entry.
pub proof fn lemma_remove_selected(s: Seq<Item>, c: int)
    requires
        unique_ids(s),
        0 <= c < s.len(),
    ensures
        without_id(s, s[c].id) == s.remove(c),
    decreases s.len(),
{
    let id = s[c].id;
    let d = s.drop_last();
    if c == s.len() - 1 {
        assert(!has_id(d, id)) by {
            if has_id(d, id) {
                let i = choose|i: int| 0 <= i < d.len() && d[i].id == id;
                assert(s[i] == d[i]);
            }
        }
        lemma_without_absent_id(d, id);
        assert(d =~= s.remove(c));
    } else {
        assert(unique_ids(d)) by {
            assert forall|i: int, j: int| 0 <= i < j < d.len() implies d[i].id != d[j].id by {
                assert(d[i] == s[i] && d[j] == s[j]);
            }
        }
        assert(d[c] == s[c]);
        lemma_remove_selected(d, c);
        assert(s.last().id != id);
        assert(d.remove(c).push(s.last()) =~= s.remove(c));
    }
}

/// With unique identifiers, a first delete press arms the selected entry and
/// removes nothing; a second press on the same selection removes exactly that
/// entry and asks for a save.
pub proof fn lemma_delete_twice(a: App, b: App, c: App, key: Key, first: bool, second: bool)
    requires
        a.wf(),
        unique_ids(a.logs@),
        is_char(key, 'd'),
        a.selected is Some,
        a.delete != a.selected,
        main_step(a, b, key, first),
        main_step(b, c, key, second),
    ensures
        !first,
        b.logs@ == a.logs@,
        b.delete == a.selected,
        second,
        c.logs@ == a.logs@.remove(a.selected->0 as int),
        c.delete is None,
{
    lemma_remove_selected(a.logs@, a.selected->0 as int);
}

} // verus!
