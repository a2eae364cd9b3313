use crate::domain::{Domain, DomainView};
use vstd::prelude::*;

verus! {

// ---------------------------------------------------------------------------
// Domain table: name -> domain record
// ---------------------------------------------------------------------------

/// The mapping held by a sequence of (name, domain) entries, later entries
/// taking precedence.
pub open spec fn domains_of(s: Seq<(String, Domain)>) -> Map<Seq<char>, DomainView>
    decreases s.len(),
{
    if s.len() == 0 {
        Map::empty()
    } else {
        domains_of(s.drop_last()).insert(s.last().0@, s.last().1@)
    }
}

/// Some entry of `s` carries name `k`.
pub open spec fn has_name(s: Seq<(String, Domain)>, k: Seq<char>) -> bool {
    exists|i: int| 0 <= i < s.len() && s[i].0@ == k
}

/// Entries carry pairwise distinct names.
pub open spec fn distinct_names(s: Seq<(String, Domain)>) -> bool {
    forall|i: int, j: int| 0 <= i < j < s.len() ==> s[i].0@ != s[j].0@
}

proof fn lemma_domains_contains(s: Seq<(String, Domain)>)
    ensures
        forall|k: Seq<char>| #[trigger] domains_of(s).contains_key(k) <==> has_name(s, k),
    decreases s.len(),
{
    if s.len() > 0 {
        lemma_domains_contains(s.drop_last());
        assert forall|k: Seq<char>| #[trigger] domains_of(s).contains_key(k) implies has_name(
            s,
            k,
        ) by {
            if k == s.last().0@ {
                assert(s[s.len() - 1].0@ == k);
            } else {
                assert(domains_of(s.drop_last()).contains_key(k));
                assert(has_name(s.drop_last(), k));
                let i = choose|i: int| 0 <= i < s.drop_last().len() && s.drop_last()[i].0@ == k;
                assert(s[i].0@ == k);
            }
        }
        assert forall|k: Seq<char>| has_name(s, k) implies #[trigger] domains_of(s).contains_key(
            k,
        ) by {
            let i = choose|i: int| 0 <= i < s.len() && s[i].0@ == k;
            if i < s.len() - 1 {
                assert(s.drop_last()[i].0@ == k);
                assert(has_name(s.drop_last(), k));
                assert(domains_of(s.drop_last()).contains_key(k));
            } else {
                assert(k == s.last().0@);
            }
        }
    }
}

proof fn lemma_domains_index(s: Seq<(String, Domain)>, i: int)
    requires
        distinct_names(s),
        0 <= i < s.len(),
    ensures
        domains_of(s).contains_key(s[i].0@),
        domains_of(s)[s[i].0@] == s[i].1@,
    decreases s.len(),
{
    if i < s.len() - 1 {
        lemma_domains_index(s.drop_last(), i);
        assert(s.drop_last()[i] == s[i]);
    }
}

proof fn lemma_domains_update(s: Seq<(String, Domain)>, i: int, e: (String, Domain))
    requires
        distinct_names(s),
        0 <= i < s.len(),
        e.0@ == s[i].0@,
    ensures
        domains_of(s.update(i, e)) == domains_of(s).insert(e.0@, e.1@),
        distinct_names(s.update(i, e)),
    decreases s.len(),
{
    let t = s.update(i, e);
    if i == s.len() - 1 {
        assert(t.drop_last() =~= s.drop_last());
        assert(domains_of(t) =~= domains_of(s).insert(e.0@, e.1@));
    } else {
        lemma_domains_update(s.drop_last(), i, e);
        assert(t.drop_last() =~= s.drop_last().update(i, e));
        assert(t.last() == s.last());
        assert(s[i].0@ != s.last().0@);
        assert(domains_of(t) =~= domains_of(s).insert(e.0@, e.1@));
    }
}

proof fn lemma_domains_push(s: Seq<(String, Domain)>, e: (String, Domain))
    requires
        distinct_names(s),
        !has_name(s, e.0@),
    ensures
        domains_of(s.push(e)) == domains_of(s).insert(e.0@, e.1@),
        distinct_names(s.push(e)),
{
    assert(s.push(e).drop_last() =~= s);
    assert forall|i: int, j: int| 0 <= i < j < s.push(e).len() implies s.push(e)[i].0@ != s.push(
        e,
    )[j].0@ by {
        if j == s.len() {
            assert(s[i].0@ != e.0@);
        }
    }
}

proof fn lemma_domains_remove(s: Seq<(String, Domain)>, i: int)
    requires
        distinct_names(s),
        0 <= i < s.len(),
    ensures
        domains_of(s.remove(i)) == domains_of(s).remove(s[i].0@),
        distinct_names(s.remove(i)),
    decreases s.len(),
{
    let t = s.remove(i);
    let k = s[i].0@;
    assert forall|x: int, y: int| 0 <= x < y < t.len() implies t[x].0@ != t[y].0@ by {
        let sx: int = if x < i { x } else { x + 1 };
        let sy: int = if y < i { y } else { y + 1 };
        assert(t[x] == s[sx]);
        assert(t[y] == s[sy]);
    }
    if i == s.len() - 1 {
        assert(t =~= s.drop_last());
        lemma_domains_contains(s.drop_last());
        assert forall|j: int| 0 <= j < s.len() - 1 implies s.drop_last()[j].0@ != k by {
            assert(s[j].0@ != s[i as int].0@);
        }
        assert(!has_name(s.drop_last(), k));
        assert(!domains_of(s.drop_last()).contains_key(k));
        assert(domains_of(t) =~= domains_of(s).remove(k));
    } else {
        lemma_domains_remove(s.drop_last(), i);
        assert(t.drop_last() =~= s.drop_last().remove(i));
        assert(t.last() == s.last());
        assert(k != s.last().0@);
        assert(domains_of(t) =~= domains_of(s).remove(k));
    }
}

/// The domain table: a point-lookup store from names to domain records, with
/// insert-if-absent, in-place mutation of an existing entry, and removal.
pub struct DomainTable {
    entries: Vec<(String, Domain)>,
}

impl View for DomainTable {
    type V = Map<Seq<char>, DomainView>;

    closed spec fn view(&self) -> Map<Seq<char>, DomainView> {
        domains_of(self.entries@)
    }
}

impl DomainTable {
    /// Internal invariant: one entry per name.
    pub closed spec fn wf(&self) -> bool {
        distinct_names(self.entries@)
    }

    /// An empty table.
    pub fn new() -> (r: Self)
        ensures
            r.wf(),
            r@ == Map::<Seq<char>, DomainView>::empty(),
    {
        DomainTable { entries: Vec::new() }
    }

    /// Index of the entry for `name`, if one exists.
    fn find(&self, name: &String) -> (r: Option<usize>)
        ensures
            match r {
                Some(i) => i < self.entries@.len() && self.entries@[i as int].0@ == name@,
                None => !has_name(self.entries@, name@),
            },
    {
        let mut i: usize = 0;
        while i < self.entries.len()
            invariant
                i <= self.entries@.len(),
                forall|j: int| 0 <= j < i ==> self.entries@[j].0@ != name@,
            decreases self.entries@.len() - i,
        {
            if self.entries[i].0 == *name {
                return Some(i);
            }
            i = i + 1;
        }
        None
    }

    /// Whether `name` is registered.
    pub fn contains(&self, name: &String) -> (r: bool)
        requires
            self.wf(),
        ensures
            r == self@.contains_key(name@),
    {
        proof {
            lemma_domains_contains(self.entries@);
        }
        self.find(name).is_some()
    }

    /// Point lookup of the record for `name`.
    pub fn get(&self, name: &String) -> (r: Option<&Domain>)
        requires
            self.wf(),
        ensures
            match r {
                Some(d) => self@.contains_key(name@) && d@ == self@[name@],
                None => !self@.contains_key(name@),
            },
    {
        proof {
            lemma_domains_contains(self.entries@);
        }
        match self.find(name) {
            Some(i) => {
                proof {
                    lemma_domains_index(self.entries@, i as int);
                }
                Some(&self.entries[i].1)
            },
            None => None,
        }
    }

    /// Inserts a record for a name that is not yet present.
    pub fn insert_new(&mut self, name: String, domain: Domain)
        requires
            old(self).wf(),
            !old(self)@.contains_key(name@),
        ensures
            final(self).wf(),
            final(self)@ == old(self)@.insert(name@, domain@),
    {
        proof {
            lemma_domains_contains(self.entries@);
            lemma_domains_push(self.entries@, (name, domain));
        }
        self.entries.push((name, domain));
    }

    /// Replaces the owner of an existing record, leaving the rest unchanged.
    pub fn set_owner(&mut self, name: &String, owner: u64)
        requires
            old(self).wf(),
            old(self)@.contains_key(name@),
        ensures
            final(self).wf(),
            final(self)@ == old(self)@.insert(
                name@,
                (DomainView { owner, ..old(self)@[name@] }),
            ),
    {
        proof {
            lemma_domains_contains(self.entries@);
        }
        match self.find(name) {
            Some(i) => {
                proof {
                    lemma_domains_index(self.entries@, i as int);
                }
                let ghost s0 = self.entries@;
                self.entries[i].1.owner = owner;
                proof {
                    assert(self.entries@ =~= s0.update(i as int, self.entries@[i as int]));
                    lemma_domains_update(s0, i as int, self.entries@[i as int]);
                }
            },
            None => {
                proof {
                    assert(false);
                }
            },
        }
    }

    /// Replaces the registration details of an existing record wholesale.
    pub fn set_details(&mut self, name: &String, details: crate::domain::RegistrationDetails)
        requires
            old(self).wf(),
            old(self)@.contains_key(name@),
        ensures
            final(self).wf(),
            final(self)@ == old(self)@.insert(
                name@,
                (DomainView { regist_details: details@, ..old(self)@[name@] }),
            ),
    {
        proof {
            lemma_domains_contains(self.entries@);
        }
        match self.find(name) {
            Some(i) => {
                proof {
                    lemma_domains_index(self.entries@, i as int);
                }
                let ghost s0 = self.entries@;
                self.entries[i].1.regist_details = details;
                proof {
                    assert(self.entries@ =~= s0.update(i as int, self.entries@[i as int]));
                    lemma_domains_update(s0, i as int, self.entries@[i as int]);
                }
            },
            None => {
                proof {
                    assert(false);
                }
            },
        }
    }

    /// Replaces the expiry ordinal of an existing record.
    pub fn set_expire(&mut self, name: &String, expire: u64)
        requires
            old(self).wf(),
            old(self)@.contains_key(name@),
        ensures
            final(self).wf(),
            final(self)@ == old(self)@.insert(
                name@,
                (DomainView { expire, ..old(self)@[name@] }),
            ),
    {
        proof {
            lemma_domains_contains(self.entries@);
        }
        match self.find(name) {
            Some(i) => {
                proof {
                    lemma_domains_index(self.entries@, i as int);
                }
                let ghost s0 = self.entries@;
                self.entries[i].1.expire = expire;
                proof {
                    assert(self.entries@ =~= s0.update(i as int, self.entries@[i as int]));
                    lemma_domains_update(s0, i as int, self.entries@[i as int]);
                }
            },
            None => {
                proof {
                    assert(false);
                }
            },
        }
    }

    /// Removes the record for an existing name.
    pub fn remove(&mut self, name: &String)
        requires
            old(self).wf(),
            old(self)@.contains_key(name@),
        ensures
            final(self).wf(),
            final(self)@ == old(self)@.remove(name@),
    {
        proof {
            lemma_domains_contains(self.entries@);
        }
        match self.find(name) {
            Some(i) => {
                proof {
                    lemma_domains_remove(self.entries@, i as int);
                }
                self.entries.remove(i);
            },
            None => {
                proof {
                    assert(false);
                }
            },
        }
    }
}

// ---------------------------------------------------------------------------
// Records table: (name, record type) -> value
// ---------------------------------------------------------------------------

/// The mapping held by a sequence of (name, record type, value) entries,
/// later entries taking precedence.
pub open spec fn records_of(s: Seq<(String, String, String)>) -> Map<
    (Seq<char>, Seq<char>),
    Seq<char>,
>
    decreases s.len(),
{
    if s.len() == 0 {
        Map::empty()
    } else {
        records_of(s.drop_last()).insert((s.last().0@, s.last().1@), s.last().2@)
    }
}

/// Some entry of `s` carries key `k`.
pub open spec fn has_record_key(s: Seq<(String, String, String)>, k: (Seq<char>, Seq<char>)) -> bool {
    exists|i: int| 0 <= i < s.len() && (s[i].0@, s[i].1@) == k
}

/// Entries carry pairwise distinct (name, record type) keys.
pub open spec fn distinct_record_keys(s: Seq<(String, String, String)>) -> bool {
    forall|i: int, j: int| 0 <= i < j < s.len() ==> (s[i].0@, s[i].1@) != (s[j].0@, s[j].1@)
}

proof fn lemma_records_contains(s: Seq<(String, String, String)>)
    ensures
        forall|k: (Seq<char>, Seq<char>)| #[trigger] records_of(s).contains_key(k) <==> has_record_key(s, k),
    decreases s.len(),
{
    if s.len() > 0 {
        lemma_records_contains(s.drop_last());
        assert forall|k: (Seq<char>, Seq<char>)| #[trigger] records_of(s).contains_key(k) implies has_record_key(
            s,
            k,
        ) by {
            if k == (s.last().0@, s.last().1@) {
                assert((s[s.len() - 1].0@, s[s.len() - 1].1@) == k);
            } else {
                assert(records_of(s.drop_last()).contains_key(k));
                assert(has_record_key(s.drop_last(), k));
                let i = choose|i: int|
                    0 <= i < s.drop_last().len() && (s.drop_last()[i].0@, s.drop_last()[i].1@) == k;
                assert((s[i].0@, s[i].1@) == k);
            }
        }
        assert forall|k: (Seq<char>, Seq<char>)| has_record_key(s, k) implies #[trigger] records_of(
            s,
        ).contains_key(k) by {
            let i = choose|i: int| 0 <= i < s.len() && (s[i].0@, s[i].1@) == k;
            if i < s.len() - 1 {
                assert((s.drop_last()[i].0@, s.drop_last()[i].1@) == k);
                assert(has_record_key(s.drop_last(), k));
                assert(records_of(s.drop_last()).contains_key(k));
            } else {
                assert(k == (s.last().0@, s.last().1@));
            }
        }
    }
}

proof fn lemma_records_index(s: Seq<(String, String, String)>, i: int)
    requires
        distinct_record_keys(s),
        0 <= i < s.len(),
    ensures
        records_of(s).contains_key((s[i].0@, s[i].1@)),
        records_of(s)[(s[i].0@, s[i].1@)] == s[i].2@,
    decreases s.len(),
{
    if i < s.len() - 1 {
        lemma_records_index(s.drop_last(), i);
        assert(s.drop_last()[i] == s[i]);
    }
}

proof fn lemma_records_update(s: Seq<(String, String, String)>, i: int, e: (String, String, String))
    requires
        distinct_record_keys(s),
        0 <= i < s.len(),
        (e.0@, e.1@) == (s[i].0@, s[i].1@),
    ensures
        records_of(s.update(i, e)) == records_of(s).insert((e.0@, e.1@), e.2@),
        distinct_record_keys(s.update(i, e)),
    decreases s.len(),
{
    let t = s.update(i, e);
    if i == s.len() - 1 {
        assert(t.drop_last() =~= s.drop_last());
        assert(records_of(t) =~= records_of(s).insert((e.0@, e.1@), e.2@));
    } else {
        lemma_records_update(s.drop_last(), i, e);
        assert(t.drop_last() =~= s.drop_last().update(i, e));
        assert(t.last() == s.last());
        assert((s[i].0@, s[i].1@) != (s.last().0@, s.last().1@));
        assert(records_of(t) =~= records_of(s).insert((e.0@, e.1@), e.2@));
    }
}

proof fn lemma_records_push(s: Seq<(String, String, String)>, e: (String, String, String))
    requires
        distinct_record_keys(s),
        !has_record_key(s, (e.0@, e.1@)),
    ensures
        records_of(s.push(e)) == records_of(s).insert((e.0@, e.1@), e.2@),
        distinct_record_keys(s.push(e)),
{
    assert(s.push(e).drop_last() =~= s);
    assert forall|i: int, j: int|
        0 <= i < j < s.push(e).len() implies (s.push(e)[i].0@, s.push(e)[i].1@) != (
        s.push(e)[j].0@,
        s.push(e)[j].1@,
    ) by {
        if j == s.len() {
            assert((s[i].0@, s[i].1@) != (e.0@, e.1@));
        }
    }
}

proof fn lemma_records_remove(s: Seq<(String, String, String)>, i: int)
    requires
        distinct_record_keys(s),
        0 <= i < s.len(),
    ensures
        records_of(s.remove(i)) == records_of(s).remove((s[i].0@, s[i].1@)),
        distinct_record_keys(s.remove(i)),
    decreases s.len(),
{
    let t = s.remove(i);
    let k = (s[i].0@, s[i].1@);
    assert forall|x: int, y: int| 0 <= x < y < t.len() implies (t[x].0@, t[x].1@) != (
        t[y].0@,
        t[y].1@,
    ) by {
        let sx: int = if x < i { x } else { x + 1 };
        let sy: int = if y < i { y } else { y + 1 };
        assert(t[x] == s[sx]);
        assert(t[y] == s[sy]);
    }
    if i == s.len() - 1 {
        assert(t =~= s.drop_last());
        lemma_records_contains(s.drop_last());
        assert forall|j: int| 0 <= j < s.len() - 1 implies (s.drop_last()[j].0@, s.drop_last()[j].1@)
            != k by {
            assert((s[j].0@, s[j].1@) != (s[i as int].0@, s[i as int].1@));
        }
        assert(!has_record_key(s.drop_last(), k));
        assert(!records_of(s.drop_last()).contains_key(k));
        assert(records_of(t) =~= records_of(s).remove(k));
    } else {
        lemma_records_remove(s.drop_last(), i);
        assert(t.drop_last() =~= s.drop_last().remove(i));
        assert(t.last() == s.last());
        assert(k != (s.last().0@, s.last().1@));
        assert(records_of(t) =~= records_of(s).remove(k));
    }
}

/// The DNS records table: a point-lookup store from (name, record type)
/// pairs to string values, with upsert and removal.
pub struct RecordsTable {
    entries: Vec<(String, String, String)>,
}

impl View for RecordsTable {
    type V = Map<(Seq<char>, Seq<char>), Seq<char>>;

    closed spec fn view(&self) -> Map<(Seq<char>, Seq<char>), Seq<char>> {
        records_of(self.entries@)
    }
}

impl RecordsTable {
    /// Internal invariant: one entry per (name, record type) key.
    pub closed spec fn wf(&self) -> bool {
        distinct_record_keys(self.entries@)
    }

    /// An empty table.
    pub fn new() -> (r: Self)
        ensures
            r.wf(),
            r@ == Map::<(Seq<char>, Seq<char>), Seq<char>>::empty(),
    {
        RecordsTable { entries: Vec::new() }
    }

    /// Index of the entry for the given key, if one exists.
    fn find(&self, name: &String, record_type: &String) -> (r: Option<usize>)
        ensures
            match r {
                Some(i) => i < self.entries@.len() && self.entries@[i as int].0@ == name@
                    && self.entries@[i as int].1@ == record_type@,
                None => !has_record_key(self.entries@, (name@, record_type@)),
            },
    {
        let mut i: usize = 0;
        while i < self.entries.len()
            invariant
                i <= self.entries@.len(),
                forall|j: int|
                    0 <= j < i ==> (self.entries@[j].0@, self.entries@[j].1@) != (
                        name@,
                        record_type@,
                    ),
            decreases self.entries@.len() - i,
        {
            if self.entries[i].0 == *name && self.entries[i].1 == *record_type {
                return Some(i);
            }
            i = i + 1;
        }
        None
    }

    /// Point lookup of the value stored under (name, record type).
    pub fn get(&self, name: &String, record_type: &String) -> (r: Option<&String>)
        requires
            self.wf(),
        ensures
            match r {
                Some(v) => self@.contains_key((name@, record_type@)) && v@ == self@[
                    (name@, record_type@)
                ],
                None => !self@.contains_key((name@, record_type@)),
            },
    {
        proof {
            lemma_records_contains(self.entries@);
        }
        match self.find(name, record_type) {
            Some(i) => {
                proof {
                    lemma_records_index(self.entries@, i as int);
                }
                Some(&self.entries[i].2)
            },
            None => None,
        }
    }

    /// Creates or overwrites the value stored under (name, record type).
    pub fn upsert(&mut self, name: String, record_type: String, value: String)
        requires
            old(self).wf(),
        ensures
            final(self).wf(),
            final(self)@ == old(self)@.insert((name@, record_type@), value@),
    {
        proof {
            lemma_records_contains(self.entries@);
        }
        match self.find(&name, &record_type) {
            Some(i) => {
                let ghost s0 = self.entries@;
                self.entries[i] = (name, record_type, value);
                proof {
                    assert(self.entries@ =~= s0.update(i as int, self.entries@[i as int]));
                    lemma_records_update(s0, i as int, self.entries@[i as int]);
                }
            },
            None => {
                proof {
                    lemma_records_push(self.entries@, (name, record_type, value));
                }
                self.entries.push((name, record_type, value));
            },
        }
    }

    /// Removes the entry under (name, record type); removing an absent entry
    /// leaves the table unchanged.
    pub fn remove(&mut self, name: &String, record_type: &String)
        requires
            old(self).wf(),
        ensures
            final(self).wf(),
            final(self)@ == old(self)@.remove((name@, record_type@)),
    {
        proof {
            lemma_records_contains(self.entries@);
        }
        match self.find(name, record_type) {
            Some(i) => {
                proof {
                    lemma_records_remove(self.entries@, i as int);
                }
                self.entries.remove(i);
            },
            None => {
                proof {
                    assert(!self@.contains_key((name@, record_type@)));
                    assert(self@.remove((name@, record_type@)) =~= self@);
                }
            },
        }
    }
}


} // verus!
