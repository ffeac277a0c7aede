use vstd::prelude::*;

verus! {

/// One work-log record.
///
/// `id` is the 128-bit value of a version-4 UUID. `created` and `modified` are
/// instants in microseconds since the Unix epoch (UTC).
#[derive(Clone, Debug, PartialEq, Eq)]
pub struct Item {
    pub id: u128,
    pub content: String,
    pub created: i64,
    pub modified: i64,
}

/// Relies on `uuid::Uuid::new_v4` and `Uuid::as_u128`: a fresh random identifier.
#[verifier::external_body]
fn new_id() -> (r: u128) {
    uuid::Uuid::new_v4().as_u128()
}

/// Relies on `chrono::Utc::now` and `DateTime::timestamp_micros`: the current
/// instant in microseconds since the Unix epoch.
#[verifier::external_body]
pub(crate) fn now_micros() -> (r: i64) {
    chrono::Utc::now().timestamp_micros()
}

impl Item {
    /// An entry with identifier `id`, empty content, created and modified at `now`.
    pub fn fresh(id: u128, now: i64) -> (r: Item)
        ensures
            r.id == id,
            r.content@ == Seq::<char>::empty(),
            r.created == now,
            r.modified == now,
    {
        Item { id, content: String::new(), created: now, modified: now }
    }

    /// A fresh entry: a new random identifier, empty content, both timestamps
    /// set to the current time.
    pub fn new() -> (r: Item)
        ensures
            r.content@ == Seq::<char>::empty(),
            r.created == r.modified,
    {
        Item::fresh(new_id(), now_micros())
    }

    /// A fresh entry holding `content`.
    pub fn with_content(content: String) -> (r: Item)
        ensures
            r.content@ == content@,
            r.created == r.modified,
    {
        let mut item = Item::new();
        item.content = content;
        item
    }

    /// Replaces the content and stamps `modified` with `now`.
    pub fn set_content(&mut self, content: String, now: i64)
        ensures
            final(self).id == old(self).id,
            final(self).created == old(self).created,
            final(self).content@ == content@,
            final(self).modified == now,
    {
        self.content = content;
        self.modified = now;
    }

    /// Replaces the content and stamps `modified` with the current time.
    pub fn update(&mut self, content: String)
        ensures
            final(self).id == old(self).id,
            final(self).created == old(self).created,
            final(self).content@ == content@,
    {
        self.set_content(content, now_micros());
    }

    pub fn id(&self) -> (r: u128)
        ensures
            r == self.id,
    {
        self.id
    }

    /// A field-for-field copy.
    pub fn duplicate(&self) -> (r: Item)
        ensures
            r == *self,
    {
        Item {
            id: self.id,
            content: self.content.clone(),
            created: self.created,
            modified: self.modified,
        }
    }
}

impl Default for Item {
    fn default() -> (r: Item)
        ensures
            r.content@ == Seq::<char>::empty(),
            r.created == r.modified,
    {
        Item::new()
    }
}

/// Entries ordered by creation time, most recent first.
pub open spec fn sorted_desc(s: Seq<Item>) -> bool {
    forall|i: int, j: int| 0 <= i < j < s.len() ==> s[i].created >= s[j].created
}

/// The number of leading entries of `s` created at or after `c`.
pub open spec fn leading_not_older(s: Seq<Item>, c: i64) -> nat
    decreases s.len(),
{
    if s.len() == 0 || s[0].created < c {
        0
    } else {
        1 + leading_not_older(s.drop_first(), c)
    }
}

/// `s` with `e` placed after its leading entries created at or after
/// `e.created`; on a store sorted newest first, that is after every entry not
/// older than `e` and before the older ones.
pub open spec fn insert_ordered(s: Seq<Item>, e: Item) -> Seq<Item> {
    s.insert(leading_not_older(s, e.created) as int, e)
}

/// `s` sorted newest first, entries created at the same instant keeping their
/// order in `s`.
pub open spec fn sort_by_created(s: Seq<Item>) -> Seq<Item>
    decreases s.len(),
{
    if s.len() == 0 {
        s
    } else {
        insert_ordered(sort_by_created(s.drop_last()), s.last())
    }
}

/// On `s`, the leading entries created at or after `c` are the first `p`.
pub proof fn lemma_leading_not_older(s: Seq<Item>, c: i64, p: int)
    requires
        0 <= p <= s.len(),
        forall|j: int| 0 <= j < p ==> s[j].created >= c,
        p < s.len() ==> s[p].created < c,
    ensures
        leading_not_older(s, c) == p,
    decreases p,
{
    if p > 0 {
        let t = s.drop_first();
        assert forall|j: int| 0 <= j < p - 1 implies t[j].created >= c by {
            assert(t[j] == s[j + 1]);
        }
        if p < s.len() {
            assert(t[p - 1] == s[p]);
        }
        lemma_leading_not_older(t, c, p - 1);
    }
}

} // verus!
