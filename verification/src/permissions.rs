//! Permission decisions that persist across sessions.
//!
//! A decision applies to **this version of this extension**: every entry records the version it
//! was made for, and a decision for another version is not used. An extension that was allowed to
//! read the workspace at one version is different code at the next, and a grant does not carry
//! across an update the user has not looked at.

use vstd::prelude::*;
use crate::capability::GrantStore;
#[allow(unused_imports)]
use crate::capability::Grants;
use crate::text::{chars_of, same};

verus! {

/// What was decided about one extension.
#[derive(Debug, Clone)]
pub struct Remembered {
    /// The version the decisions were made about.
    pub version: String,
    /// The decisions themselves.
    pub grants: GrantStore,
}

/// A [`Remembered`], as a value in contracts.
#[verifier::ext_equal]
pub struct Saved {
    pub version: Seq<char>,
    pub grants: Grants,
}

impl View for Remembered {
    type V = Saved;

    open spec fn view(&self) -> Saved {
        Saved { version: self.version@, grants: self.grants@ }
    }
}

/// One extension and what is remembered about it.
#[derive(Debug)]
pub struct Entry {
    /// The extension's identifier.
    pub id: String,
    /// What was decided about it.
    pub remembered: Remembered,
}

/// Whether `a` comes before `b` in the order of their characters.
pub open spec fn text_less(a: Seq<char>, b: Seq<char>) -> bool
    decreases a.len(),
{
    if b.len() == 0 {
        false
    } else if a.len() == 0 {
        true
    } else if a[0] != b[0] {
        a[0] < b[0]
    } else {
        text_less(a.skip(1), b.skip(1))
    }
}

proof fn lemma_less_irreflexive(a: Seq<char>)
    ensures
        !text_less(a, a),
    decreases a.len(),
{
    if a.len() > 0 {
        lemma_less_irreflexive(a.skip(1));
    }
}

proof fn lemma_less_total(a: Seq<char>, b: Seq<char>)
    ensures
        text_less(a, b) || text_less(b, a) || a == b,
    decreases a.len(),
{
    if a.len() > 0 && b.len() > 0 && a[0] == b[0] {
        lemma_less_total(a.skip(1), b.skip(1));
        if a.skip(1) == b.skip(1) {
            assert(a =~= seq![a[0]] + a.skip(1));
            assert(b =~= seq![b[0]] + b.skip(1));
        }
    } else if a.len() == 0 && b.len() == 0 {
        assert(a =~= b);
    }
}

proof fn lemma_less_transitive(a: Seq<char>, b: Seq<char>, c: Seq<char>)
    requires
        text_less(a, b),
        text_less(b, c),
    ensures
        text_less(a, c),
    decreases a.len(),
{
    if a.len() > 0 && b.len() > 0 && c.len() > 0 && a[0] == b[0] && b[0] == c[0] {
        lemma_less_transitive(a.skip(1), b.skip(1), c.skip(1));
    }
}

/// Whether `a` comes before `b` in the order of their characters.
fn comes_before(a: &str, b: &str) -> (r: bool)
    ensures
        r == text_less(a@, b@),
{
    let x: Vec<char> = chars_of(a);
    let y: Vec<char> = chars_of(b);
    let mut i: usize = 0;
    assert(x@.skip(0) =~= x@);
    assert(y@.skip(0) =~= y@);
    while i < x.len() && i < y.len() && x[i] == y[i]
        invariant
            i <= x@.len(),
            i <= y@.len(),
            text_less(x@, y@) == text_less(x@.skip(i as int), y@.skip(i as int)),
        decreases x@.len() - i,
    {
        proof {
            assert(x@.skip(i as int).skip(1) =~= x@.skip(i + 1));
            assert(y@.skip(i as int).skip(1) =~= y@.skip(i + 1));
        }
        i = i + 1;
    }
    if i == y.len() {
        false
    } else if i == x.len() {
        true
    } else {
        assert(x@.skip(i as int)[0] == x@[i as int]);
        assert(y@.skip(i as int)[0] == y@[i as int]);
        x[i] < y[i]
    }
}

/// Whether entries stand in the order of their identifiers, no identifier twice.
pub open spec fn ordered(list: Seq<Entry>) -> bool {
    forall|i: int, j: int|
        0 <= i < j < list.len() ==> text_less((#[trigger] list[i]).id@, (#[trigger] list[j]).id@)
}

/// Whether `list` has an entry for `id` at `i`.
pub open spec fn entry_at(list: Seq<Entry>, id: Seq<char>, i: int) -> bool {
    0 <= i < list.len() && list[i].id@ == id
}

/// What `list` remembers, by identifier.
pub open spec fn saved_in(list: Seq<Entry>) -> Map<Seq<char>, Saved> {
    Map::new(
        |id: Seq<char>| exists|i: int| entry_at(list, id, i),
        |id: Seq<char>| list[choose|i: int| entry_at(list, id, i)].remembered@,
    )
}

proof fn lemma_entry_unique(list: Seq<Entry>, i: int, j: int)
    requires
        ordered(list),
        0 <= i < list.len(),
        0 <= j < list.len(),
        list[i].id@ == list[j].id@,
    ensures
        i == j,
{
    lemma_less_irreflexive(list[i].id@);
    if i < j {
        assert(text_less(list[i].id@, list[j].id@));
    }
    if j < i {
        assert(text_less(list[j].id@, list[i].id@));
    }
}

proof fn lemma_saved_at(list: Seq<Entry>, i: int)
    requires
        ordered(list),
        0 <= i < list.len(),
    ensures
        saved_in(list).contains_key(list[i].id@),
        saved_in(list)[list[i].id@] == list[i].remembered@,
{
    let id = list[i].id@;
    assert(entry_at(list, id, i));
    let k = choose|k: int| entry_at(list, id, k);
    assert(entry_at(list, id, k));
    lemma_entry_unique(list, i, k);
}

/// Every extension's remembered decisions.
///
/// Entries are kept in the order of their identifiers, so that they are always written in the
/// same order.
#[derive(Debug)]
pub struct Permissions {
    entries: Vec<Entry>,
}

impl View for Permissions {
    type V = Map<Seq<char>, Saved>;

    closed spec fn view(&self) -> Map<Seq<char>, Saved> {
        saved_in(self.entries@)
    }
}

impl Default for Permissions {
    fn default() -> (r: Permissions)
        ensures
            r@ == Map::<Seq<char>, Saved>::empty(),
    {
        let r = Permissions { entries: Vec::new() };
        assert(r@ =~= Map::<Seq<char>, Saved>::empty());
        r
    }
}

/// What is remembered about `id` at `version`, if it is about that version.
pub open spec fn applicable(
    saved: Map<Seq<char>, Saved>,
    id: Seq<char>,
    version: Seq<char>,
) -> Option<Grants> {
    if saved.contains_key(id) && saved[id].version == version {
        Some(saved[id].grants)
    } else {
        None
    }
}

/// The other version `id` has decisions for, if it has.
pub open spec fn outdated(
    saved: Map<Seq<char>, Saved>,
    id: Seq<char>,
    version: Seq<char>,
) -> Option<Seq<char>> {
    if saved.contains_key(id) && saved[id].version != version {
        Some(saved[id].version)
    } else {
        None
    }
}

/// What is remembered once the decisions about `id` are replaced.
pub open spec fn replaced(
    saved: Map<Seq<char>, Saved>,
    id: Seq<char>,
    version: Seq<char>,
    grants: Grants,
) -> Map<Seq<char>, Saved> {
    if grants.allowed.len() == 0 && grants.denied.len() == 0 {
        saved.remove(id)
    } else {
        saved.insert(id, Saved { version, grants })
    }
}

impl Permissions {
    #[verifier::type_invariant]
    spec fn in_order(self) -> bool {
        ordered(self.entries@)
    }

    /// The place of `id` in the list, and whether it is there.
    fn place(list: &Vec<Entry>, id: &str) -> (r: (usize, bool))
        requires
            ordered(list@),
        ensures
            r.0 <= list@.len(),
            forall|j: int| 0 <= j < r.0 ==> text_less((#[trigger] list@[j]).id@, id@),
            forall|j: int|
                r.0 <= j < list@.len() ==> text_less(id@, (#[trigger] list@[j]).id@)
                    || list@[j].id@ == id@,
            r.1 == saved_in(list@).contains_key(id@),
            r.1 ==> r.0 < list@.len() && list@[r.0 as int].id@ == id@,
            !r.1 ==> forall|j: int| r.0 <= j < list@.len() ==> text_less(
                id@,
                (#[trigger] list@[j]).id@,
            ),
    {
        let mut i: usize = 0;
        while i < list.len() && comes_before(list[i].id.as_str(), id)
            invariant
                i <= list@.len(),
                forall|j: int| 0 <= j < i ==> text_less((#[trigger] list@[j]).id@, id@),
            decreases list@.len() - i,
        {
            i = i + 1;
        }
        let found: bool = i < list.len() && same(list[i].id.as_str(), id);
        proof {
            lemma_less_irreflexive(id@);
            if i < list@.len() {
                lemma_less_total(list@[i as int].id@, id@);
                assert forall|j: int| i <= j < list@.len() implies text_less(
                    id@,
                    (#[trigger] list@[j]).id@,
                ) || list@[j].id@ == id@ by {
                    if j > i {
                        assert(text_less(list@[i as int].id@, list@[j].id@));
                        if list@[i as int].id@ != id@ {
                            lemma_less_transitive(id@, list@[i as int].id@, list@[j].id@);
                        }
                    }
                }
            }
            if found {
                assert(entry_at(list@, id@, i as int));
            } else {
                assert forall|j: int| i <= j < list@.len() implies text_less(
                    id@,
                    (#[trigger] list@[j]).id@,
                ) by {
                    if j > i {
                        assert(text_less(list@[i as int].id@, list@[j].id@));
                        lemma_less_transitive(id@, list@[i as int].id@, list@[j].id@);
                    }
                }
                if saved_in(list@).contains_key(id@) {
                    let k = choose|k: int| entry_at(list@, id@, k);
                    assert(entry_at(list@, id@, k));
                    assert(list@[k].id@ == id@);
                }
            }
        }
        (i, found)
    }

    /// The decisions for `id` at `version`, if any still apply.
    ///
    /// `None` when the stored decisions are for a different version.
    pub fn for_extension(&self, id: &str, version: &str) -> (r: Option<&GrantStore>)
        ensures
            match r {
                Some(grants) => applicable(self@, id@, version@) == Some(grants@),
                None => applicable(self@, id@, version@) is None,
            },
    {
        proof {
            use_type_invariant(self);
        }
        let (i, found) = Self::place(&self.entries, id);
        if found {
            proof {
                lemma_saved_at(self.entries@, i as int);
            }
            if same(self.entries[i].remembered.version.as_str(), version) {
                return Some(&self.entries[i].remembered.grants);
            }
        }
        None
    }

    /// The version `id` has decisions stored for, if it is some other version.
    ///
    /// Lets the prompt explain that the user is asked again because the extension was updated.
    pub fn stale_for(&self, id: &str, version: &str) -> (r: Option<&str>)
        ensures
            match r {
                Some(other) => outdated(self@, id@, version@) == Some(other@),
                None => outdated(self@, id@, version@) is None,
            },
    {
        proof {
            use_type_invariant(self);
        }
        let (i, found) = Self::place(&self.entries, id);
        if found {
            proof {
                lemma_saved_at(self.entries@, i as int);
            }
            if !same(self.entries[i].remembered.version.as_str(), version) {
                return Some(self.entries[i].remembered.version.as_str());
            }
        }
        None
    }

    /// Replaces what is remembered about `id` at `version`.
    ///
    /// An entry with no decisions is removed instead of stored: it is equivalent to having no
    /// entry, and keeping it would make the file grow without bound.
    pub fn set(&mut self, id: &str, version: &str, grants: GrantStore)
        ensures
            final(self)@ == replaced(old(self)@, id@, version@, grants@),
    {
        if grants.allowed.len() == 0 && grants.denied.len() == 0 {
            self.put(id, None);
        } else {
            self.put(id, Some(Remembered { version: version.to_owned(), grants }));
        }
    }

    /// Takes an entry as it was stored, whether or not it holds decisions.
    pub fn restore(&mut self, id: &str, remembered: Remembered)
        ensures
            final(self)@ == old(self)@.insert(id@, remembered@),
    {
        self.put(id, Some(remembered));
    }

    /// Replaces the entry of `id`, or removes it.
    fn put(&mut self, id: &str, now: Option<Remembered>)
        ensures
            final(self)@ == match now {
                Some(remembered) => old(self)@.insert(id@, remembered@),
                None => old(self)@.remove(id@),
            },
    {
        proof {
            use_type_invariant(&*self);
        }
        let mut list: Vec<Entry> = Vec::new();
        std::mem::swap(&mut list, &mut self.entries);
        let (i, found) = Self::place(&list, id);
        let ghost before = list@;
        if found {
            list.remove(i);
        }
        let ghost rest = list@;
        proof {
            assert(ordered(rest)) by {
                assert forall|a: int, b: int| 0 <= a < b < rest.len() implies text_less(
                    (#[trigger] rest[a]).id@,
                    (#[trigger] rest[b]).id@,
                ) by {
                    let x = if found && a >= i {
                        a + 1
                    } else {
                        a
                    };
                    let y = if found && b >= i {
                        b + 1
                    } else {
                        b
                    };
                    assert(rest[a] == before[x]);
                    assert(rest[b] == before[y]);
                }
            }
            lemma_removed(before, rest, i as int, found, id@);
        }
        if let Some(remembered) = now {
            let ghost saved = remembered@;
            list.insert(i, Entry { id: id.to_owned(), remembered });
            proof {
                let now = list@;
                assert forall|j: int| i <= j < rest.len() implies text_less(
                    id@,
                    (#[trigger] rest[j]).id@,
                ) by {
                    if found {
                        assert(rest[j] == before[j + 1]);
                        assert(text_less(before[i as int].id@, before[j + 1].id@));
                    } else {
                        assert(rest[j] == before[j]);
                    }
                }
                assert forall|j: int| 0 <= j < i implies text_less(
                    (#[trigger] rest[j]).id@,
                    id@,
                ) by {
                    assert(rest[j] == before[j]);
                }
                lemma_inserted(rest, now, i as int, id@, saved);
            }
        }
        self.entries = list;
    }

    /// Whether nothing at all is remembered.
    pub fn is_empty(&self) -> (r: bool)
        ensures
            r == (self@ == Map::<Seq<char>, Saved>::empty()),
    {
        let r: bool = self.entries.len() == 0;
        proof {
            if r {
                assert(self@ =~= Map::<Seq<char>, Saved>::empty());
            } else {
                let id = self.entries@[0].id@;
                assert(entry_at(self.entries@, id, 0));
                assert(self@.contains_key(id));
            }
        }
        r
    }

    /// The entries, in the order of their identifiers.
    pub fn entries(&self) -> (r: &Vec<Entry>)
        ensures
            ordered(r@),
            saved_in(r@) == self@,
    {
        proof {
            use_type_invariant(self);
        }
        &self.entries
    }
}

proof fn lemma_removed(before: Seq<Entry>, rest: Seq<Entry>, i: int, found: bool, id: Seq<char>)
    requires
        ordered(before),
        ordered(rest),
        found ==> 0 <= i < before.len() && before[i].id@ == id && rest == before.remove(i),
        !found ==> rest == before && !saved_in(before).contains_key(id),
    ensures
        saved_in(rest) == saved_in(before).remove(id),
{
    let old_map = saved_in(before);
    let new_map = saved_in(rest);
    assert forall|key: Seq<char>| new_map.contains_key(key) <==> old_map.remove(
        id,
    ).contains_key(key) by {
        if new_map.contains_key(key) {
            let k = choose|k: int| entry_at(rest, key, k);
            assert(entry_at(rest, key, k));
            let x = if found && k >= i {
                k + 1
            } else {
                k
            };
            assert(rest[k] == before[x]);
            assert(entry_at(before, key, x));
            if found && key == id {
                lemma_entry_unique(before, x, i);
            }
        }
        if old_map.remove(id).contains_key(key) {
            let x = choose|x: int| entry_at(before, key, x);
            assert(entry_at(before, key, x));
            let k = if found && x > i {
                x - 1
            } else {
                x
            };
            assert(rest[k] == before[x]);
            assert(entry_at(rest, key, k));
        }
    }
    assert forall|key: Seq<char>| new_map.contains_key(key) implies new_map[key] == old_map[
        key
    ] by {
        let k = choose|k: int| entry_at(rest, key, k);
        assert(entry_at(rest, key, k));
        let x = if found && k >= i {
            k + 1
        } else {
            k
        };
        assert(rest[k] == before[x]);
        lemma_saved_at(rest, k);
        lemma_saved_at(before, x);
    }
    assert(new_map =~= old_map.remove(id));
}

proof fn lemma_inserted(rest: Seq<Entry>, now: Seq<Entry>, i: int, id: Seq<char>, saved: Saved)
    requires
        ordered(rest),
        0 <= i <= rest.len(),
        now.len() == rest.len() + 1,
        now[i].id@ == id,
        now[i].remembered@ == saved,
        forall|j: int| 0 <= j < i ==> now[j] == rest[j],
        forall|j: int| i < j < now.len() ==> now[j] == rest[j - 1],
        forall|j: int| 0 <= j < i ==> text_less((#[trigger] rest[j]).id@, id),
        forall|j: int| i <= j < rest.len() ==> text_less(id, (#[trigger] rest[j]).id@),
    ensures
        ordered(now),
        saved_in(now) == saved_in(rest).insert(id, saved),
{
    assert forall|a: int, b: int| 0 <= a < b < now.len() implies text_less(
        (#[trigger] now[a]).id@,
        (#[trigger] now[b]).id@,
    ) by {
        if a < i && b < i {
            assert(text_less(rest[a].id@, rest[b].id@));
        } else if a < i && b > i {
            assert(text_less(rest[a].id@, rest[b - 1].id@));
        } else if a > i {
            assert(text_less(rest[a - 1].id@, rest[b - 1].id@));
        } else if a == i {
            assert(text_less(id, rest[b - 1].id@));
        } else {
            assert(text_less(rest[a].id@, id));
        }
    }
    let old_map = saved_in(rest);
    let new_map = saved_in(now);
    lemma_saved_at(now, i);
    assert forall|key: Seq<char>| new_map.contains_key(key) <==> old_map.insert(
        id,
        saved,
    ).contains_key(key) by {
        if new_map.contains_key(key) && key != id {
            let k = choose|k: int| entry_at(now, key, k);
            assert(entry_at(now, key, k));
            let x = if k > i {
                k - 1
            } else {
                k
            };
            assert(entry_at(rest, key, x));
        }
        if old_map.contains_key(key) {
            let x = choose|x: int| entry_at(rest, key, x);
            assert(entry_at(rest, key, x));
            let k = if x >= i {
                x + 1
            } else {
                x
            };
            assert(now[k] == rest[x]);
            assert(entry_at(now, key, k));
        }
    }
    assert forall|key: Seq<char>| new_map.contains_key(key) && key != id implies new_map[key]
        == old_map[key] by {
        let k = choose|k: int| entry_at(now, key, k);
        assert(entry_at(now, key, k));
        let x = if k > i {
            k - 1
        } else {
            k
        };
        lemma_saved_at(now, k);
        lemma_saved_at(rest, x);
    }
    assert(new_map =~= old_map.insert(id, saved));
}

// ---------------------------------------------------------------------------
// Laws
// ---------------------------------------------------------------------------

/// What was set is what applies, for that version and no other.
pub proof fn law_decisions_hold_for_their_version(
    saved: Map<Seq<char>, Saved>,
    id: Seq<char>,
    version: Seq<char>,
    grants: Grants,
    other: Seq<char>,
)
    requires
        grants.allowed.len() > 0 || grants.denied.len() > 0,
    ensures
        applicable(replaced(saved, id, version, grants), id, version) == Some(grants),
        outdated(replaced(saved, id, version, grants), id, version) is None,
        other != version ==> applicable(replaced(saved, id, version, grants), id, other) is None,
        other != version ==> outdated(replaced(saved, id, version, grants), id, other) == Some(
            version,
        ),
{
}

/// Setting no decisions leaves nothing remembered about the extension.
pub proof fn law_forgetting_everything_removes_the_entry(
    saved: Map<Seq<char>, Saved>,
    id: Seq<char>,
    version: Seq<char>,
    grants: Grants,
)
    requires
        grants.allowed.len() == 0,
        grants.denied.len() == 0,
    ensures
        !replaced(saved, id, version, grants).contains_key(id),
{
}

/// Decisions about one extension touch no other.
pub proof fn law_extensions_do_not_share_decisions(
    saved: Map<Seq<char>, Saved>,
    id: Seq<char>,
    version: Seq<char>,
    grants: Grants,
    other: Seq<char>,
    other_version: Seq<char>,
)
    requires
        other != id,
    ensures
        applicable(replaced(saved, id, version, grants), other, other_version) == applicable(
            saved,
            other,
            other_version,
        ),
        outdated(replaced(saved, id, version, grants), other, other_version) == outdated(
            saved,
            other,
            other_version,
        ),
{
}

} // verus!
