use crate::entry::{
    attr_class, attr_domain_name, attr_spn, class_account, class_group, lemma_attr_names_distinct,
    lemma_set_vals, names_match, strings_view, Entry, EntryView, Origin, Seal, UUID_DOMAIN_INFO,
};
use crate::error::{ConsistencyError, ErrorKind};
use crate::spn::{domain_changed, lacks_name, regen, spn_report, Spn};
use vstd::prelude::*;

verus! {

/// Which committed entries a modification targets.
pub enum Filter {
    /// The entry with this stable identifier.
    Uuid(u128),
    /// Entries holding at least one of these (attribute, value) pairs.
    AnyOf(Vec<(String, String)>),
}

pub ghost enum FilterView {
    Uuid(u128),
    AnyOf(Seq<(Seq<char>, Seq<char>)>),
}

impl View for Filter {
    type V = FilterView;

    open spec fn view(&self) -> FilterView {
        match self {
            Filter::Uuid(u) => FilterView::Uuid(*u),
            Filter::AnyOf(ps) => FilterView::AnyOf(
                ps@.map_values(|p: (String, String)| (p.0@, p.1@)),
            ),
        }
    }
}

pub open spec fn filter_selects(e: EntryView, f: FilterView) -> bool {
    match f {
        FilterView::Uuid(u) => e.uuid == Some(u),
        FilterView::AnyOf(ps) => holds_any(e, ps),
    }
}

/// Whether `e` holds one of the (attribute, value) pairs `ps`.
pub open spec fn holds_any(e: EntryView, ps: Seq<(Seq<char>, Seq<char>)>) -> bool {
    exists|k: int| 0 <= k < ps.len() && #[trigger] pair_held(e, ps[k])
}

pub open spec fn pair_held(e: EntryView, p: (Seq<char>, Seq<char>)) -> bool {
    e.has(p.0, p.1)
}

/// The accounts and groups.
pub open spec fn spn_holders() -> FilterView {
    FilterView::AnyOf(seq![(attr_class(), class_group()), (attr_class(), class_account())])
}

/// One change to an attribute.
pub enum Modify {
    /// Remove every value.
    Purge(String),
    /// Add the value where it is not there yet.
    Present(String, String),
    /// Make the value the only one.
    Replace(String, String),
}

pub ghost enum ModifyView {
    Purge(Seq<char>),
    Present(Seq<char>, Seq<char>),
    Replace(Seq<char>, Seq<char>),
}

impl View for Modify {
    type V = ModifyView;

    open spec fn view(&self) -> ModifyView {
        match self {
            Modify::Purge(n) => ModifyView::Purge(n@),
            Modify::Present(n, v) => ModifyView::Present(n@, v@),
            Modify::Replace(n, v) => ModifyView::Replace(n@, v@),
        }
    }
}

pub open spec fn modlist_view(ms: Seq<Modify>) -> Seq<ModifyView> {
    ms.map_values(|m: Modify| m@)
}

pub open spec fn purge_spn() -> Seq<ModifyView> {
    seq![ModifyView::Purge(attr_spn())]
}

pub open spec fn apply_mod(e: EntryView, m: ModifyView) -> EntryView {
    match m {
        ModifyView::Purge(n) => e.with_attr(n, seq![]),
        ModifyView::Present(n, v) => if e.has(n, v) {
            e
        } else {
            e.with_attr(n, e.vals(n).push(v))
        },
        ModifyView::Replace(n, v) => e.with_attr(n, seq![v]),
    }
}

/// The changes `ms` applied to `e` in order.
pub open spec fn apply_mods(e: EntryView, ms: Seq<ModifyView>) -> EntryView
    decreases ms.len(),
{
    if ms.len() == 0 {
        e
    } else {
        apply_mod(apply_mods(e, ms.drop_last()), ms.last())
    }
}

pub open spec fn entries_view(es: Seq<Entry>) -> Seq<EntryView> {
    es.map_values(|e: Entry| e@)
}

/// The domain name that the domain-info entry holds.
pub open spec fn domain_of(s: Seq<EntryView>) -> Seq<char> {
    s[0].single(attr_domain_name()).unwrap()
}

/// The working copy of a committed entry after the changes `ms`.
pub open spec fn edited(e: EntryView, ms: Seq<ModifyView>) -> EntryView {
    apply_mods(EntryView { origin: Origin::Existing, seal: Seal::Unsealed, ..e }, ms)
}

pub open spec fn touched_of(s: Seq<EntryView>, f: FilterView) -> Seq<bool> {
    Seq::new(s.len(), |i: int| filter_selects(s[i], f))
}

/// One write without its post hooks: the entries that `f` selects are
/// edited by `ms`, their spn derived, then sealed; the first failure aborts.
pub open spec fn write_outcome(s: Seq<EntryView>, f: FilterView, ms: Seq<ModifyView>) -> Result<
    Seq<EntryView>,
    ErrorKind,
> {
    if exists|i: int| 0 <= i < s.len() && filter_selects(s[i], f) && lacks_name(edited(s[i], ms)) {
        Err(ErrorKind::InvalidEntryState)
    } else if exists|i: int|
        0 <= i < s.len() && filter_selects(s[i], f) && !regen(
            edited(s[i], ms),
            domain_of(s),
        ).schema_valid() {
        Err(ErrorKind::SchemaViolation)
    } else {
        Ok(
            Seq::new(
                s.len(),
                |i: int|
                    if filter_selects(s[i], f) {
                        regen(edited(s[i], ms), domain_of(s)).sealed()
                    } else {
                        s[i]
                    },
            ),
        )
    }
}

/// A whole modification: the write, then, where it renamed the domain, the
/// purge of every spn, whose write derives them anew.
pub open spec fn modify_outcome(s: Seq<EntryView>, f: FilterView, ms: Seq<ModifyView>) -> Result<
    Seq<EntryView>,
    ErrorKind,
> {
    match write_outcome(s, f, ms) {
        Err(k) => Err(k),
        Ok(s1) => if domain_changed(s, s1, touched_of(s, f)) {
            write_outcome(s1, spn_holders(), purge_spn())
        } else {
            Ok(s1)
        },
    }
}

/// A candidate with the identifier `u` where it had none.
pub open spec fn filled(e: EntryView, u: u128) -> EntryView {
    if e.uuid is None {
        EntryView { uuid: Some(u), ..e }
    } else {
        e
    }
}

pub open spec fn committed(e: EntryView, id: int) -> EntryView {
    EntryView { id: id as u64, origin: Origin::Existing, seal: Seal::Sealed, ..e }
}

/// No identifier of `c` is used in `s` or twice in `c`.
pub open spec fn uuids_fresh(s: Seq<EntryView>, c: Seq<EntryView>) -> bool {
    &&& forall|i: int, j: int| 0 <= i < c.len() && 0 <= j < s.len() ==> c[i].uuid != s[j].uuid
    &&& forall|i: int, j: int| 0 <= i < j < c.len() ==> c[i].uuid != c[j].uuid
}

pub open spec fn filled_all(cs: Seq<EntryView>, fresh: Seq<u128>) -> Seq<EntryView> {
    Seq::new(cs.len(), |i: int| filled(cs[i], fresh[i]))
}

pub open spec fn derived_all(cs: Seq<EntryView>, fresh: Seq<u128>, d: Seq<char>) -> Seq<
    EntryView,
> {
    Seq::new(cs.len(), |i: int| regen(filled(cs[i], fresh[i]), d))
}

/// A creation of the candidates `cs`, where `fresh[i]` is the identifier
/// drawn for `cs[i]`.
pub open spec fn create_outcome(s: ServerView, cs: Seq<EntryView>, fresh: Seq<u128>) -> Result<
    ServerView,
    ErrorKind,
> {
    let a = filled_all(cs, fresh);
    let c = derived_all(cs, fresh, domain_of(s.entries));
    if exists|i: int| 0 <= i < a.len() && lacks_name(a[i]) {
        Err(ErrorKind::InvalidEntryState)
    } else if exists|i: int| 0 <= i < c.len() && !c[i].schema_valid() {
        Err(ErrorKind::SchemaViolation)
    } else if !uuids_fresh(s.entries, c) || s.next_id + c.len() > u64::MAX {
        Err(ErrorKind::StorageFailure)
    } else {
        Ok(
            ServerView {
                entries: s.entries + Seq::new(
                    c.len(),
                    |i: int| committed(c[i], s.next_id + i),
                ),
                next_id: (s.next_id + c.len()) as u64,
            },
        )
    }
}

/// `r` and `after` are what a creation of `cs` with the identifiers
/// `fresh` gives on `before`.
pub open spec fn create_done(
    before: ServerView,
    cs: Seq<EntryView>,
    fresh: Seq<u128>,
    r: Result<(), ErrorKind>,
    after: ServerView,
) -> bool {
    match create_outcome(before, cs, fresh) {
        Ok(s) => r is Ok && after == s,
        Err(k) => r == Err::<(), ErrorKind>(k) && after == before,
    }
}

pub ghost struct ServerView {
    pub entries: Seq<EntryView>,
    pub next_id: u64,
}

impl ServerView {
    /// The domain-info entry comes first and holds one domain name; every
    /// entry is committed, meets the schema and has its own identifier.
    pub open spec fn wf(self) -> bool {
        &&& self.entries.len() >= 1
        &&& self.entries[0].uuid == Some(UUID_DOMAIN_INFO)
        &&& forall|i: int|
            0 <= i < self.entries.len() ==> {
                &&& (#[trigger] self.entries[i]).schema_valid()
                &&& self.entries[i].seal == Seal::Sealed
                &&& self.entries[i].origin == Origin::Existing
            }
        &&& forall|i: int, j: int|
            0 <= i < j < self.entries.len() ==> self.entries[i].uuid != self.entries[j].uuid
    }

    pub open spec fn domain(self) -> Seq<char> {
        domain_of(self.entries)
    }

    /// Every account and group carries the spn derived from its name in
    /// the current domain.
    pub open spec fn consistent(self) -> bool {
        forall|i: int| 0 <= i < self.entries.len() ==> (#[trigger] self.entries[i]).spn_ok(
            self.domain(),
        )
    }
}

/// The committed entries and the next storage id.
pub struct Server {
    entries: Vec<Entry>,
    next_id: u64,
}

impl View for Server {
    type V = ServerView;

    closed spec fn view(&self) -> ServerView {
        ServerView { entries: entries_view(self.entries@), next_id: self.next_id }
    }
}

/// Relies on rand::random: a fresh 128-bit stable identifier.
pub assume_specification<T>[ rand::random::<T> ]() -> (r: T)
    where
        rand::distributions::Standard: rand::distributions::Distribution<T>,
;

/// Whether `e` holds one of the (attribute, value) pairs `ps`.
fn any_present(e: &Entry, ps: &Vec<(String, String)>) -> (r: bool)
    ensures
        r == exists|k: int|
            0 <= k < ps@.len() && #[trigger] e@.has(ps@[k].0@, ps@[k].1@),
{
    let mut k: usize = 0;
    while k < ps.len()
        invariant
            k <= ps@.len(),
            forall|j: int| 0 <= j < k ==> !e@.has(ps@[j].0@, ps@[j].1@),
        decreases ps.len() - k,
    {
        if e.attribute_present(ps[k].0.as_str(), ps[k].1.as_str()) {
            return true;
        }
        k += 1;
    }
    false
}

fn filter_selects_exec(e: &Entry, f: &Filter) -> (r: bool)
    ensures
        r == filter_selects(e@, f@),
{
    match f {
        Filter::Uuid(u) => match e.get_uuid() {
            Some(x) => x == *u,
            None => false,
        },
        Filter::AnyOf(ps) => {
            let r = any_present(e, ps);
            let ghost pv = match f@ {
                FilterView::AnyOf(p) => p,
                FilterView::Uuid(_) => seq![],
            };
            assert(pv.len() == ps@.len());
            assert(r == exists|k: int| 0 <= k < pv.len() && #[trigger] pair_held(e@, pv[k])) by {
                if r {
                    let k = choose|k: int| 0 <= k < ps@.len() && #[trigger] e@.has(ps@[k].0@, ps@[k].1@);
                    assert(pv[k] == (ps@[k].0@, ps@[k].1@));
                    assert(pair_held(e@, pv[k]));
                }
                if exists|k: int| 0 <= k < pv.len() && #[trigger] pair_held(e@, pv[k]) {
                    let k = choose|k: int| 0 <= k < pv.len() && #[trigger] pair_held(e@, pv[k]);
                    assert(pv[k] == (ps@[k].0@, ps@[k].1@));
                }
            }
            r
        },
    }
}

fn apply_modlist(e: &mut Entry, mods: &Vec<Modify>)
    requires
        old(e)@.seal == Seal::Unsealed,
    ensures
        final(e)@ == apply_mods(old(e)@, modlist_view(mods@)),
        final(e)@.seal == Seal::Unsealed,
        final(e)@.uuid == old(e)@.uuid,
{
    let mut i: usize = 0;
    while i < mods.len()
        invariant
            i <= mods@.len(),
            e@ == apply_mods(old(e)@, modlist_view(mods@).subrange(0, i as int)),
            e@.seal == Seal::Unsealed,
            e@.uuid == old(e)@.uuid,
        decreases mods.len() - i,
    {
        let ghost before = e@;
        match &mods[i] {
            Modify::Purge(n) => {
                let _ = e.purge(n.as_str());
            },
            Modify::Present(n, v) => {
                let _ = e.add_value(n.as_str(), v.as_str());
            },
            Modify::Replace(n, v) => {
                let vs = vec![v.clone()];
                assert(strings_view(vs@) =~= seq![v@]);
                let _ = e.set_values(n.as_str(), vs);
            },
        }
        let ghost ms = modlist_view(mods@).subrange(0, i + 1);
        assert(ms.drop_last() =~= modlist_view(mods@).subrange(0, i as int));
        i += 1;
    }
    assert(modlist_view(mods@).subrange(0, i as int) =~= modlist_view(mods@));
}

fn copy_entries(es: &Vec<Entry>) -> (r: Vec<Entry>)
    ensures
        entries_view(r@) == entries_view(es@),
{
    let mut r: Vec<Entry> = Vec::new();
    let mut i: usize = 0;
    while i < es.len()
        invariant
            i <= es@.len(),
            r@.len() == i,
            forall|j: int| 0 <= j < i ==> (#[trigger] r@[j])@ == es@[j]@,
        decreases es.len() - i,
    {
        r.push(es[i].duplicate());
        i += 1;
    }
    assert(entries_view(r@) =~= entries_view(es@));
    r
}

/// Whether one of the first `upto` entries of `es` has the identifier `u`.
fn uuid_taken(es: &Vec<Entry>, upto: usize, u: Option<u128>) -> (r: bool)
    requires
        upto <= es@.len(),
    ensures
        r == exists|j: int| 0 <= j < upto && (#[trigger] es@[j])@.uuid == u,
{
    let mut j: usize = 0;
    while j < upto
        invariant
            upto <= es@.len(),
            j <= upto,
            forall|k: int| 0 <= k < j ==> (#[trigger] es@[k])@.uuid != u,
        decreases upto - j,
    {
        if es[j].get_uuid() == u {
            return true;
        }
        j += 1;
    }
    false
}

impl Filter {
    /// The filter that selects accounts and groups.
    pub fn spn_holders() -> (r: Filter)
        ensures
            r@ == spn_holders(),
    {
        let r = Filter::AnyOf(
            vec![
                ("class".to_owned(), "group".to_owned()),
                ("class".to_owned(), "account".to_owned()),
            ],
        );
        assert(r@ == spn_holders()) by {
            if let Filter::AnyOf(ps) = r {
                assert(ps@.map_values(|p: (String, String)| (p.0@, p.1@)) =~= seq![
                    (attr_class(), class_group()),
                    (attr_class(), class_account()),
                ]);
            }
        }
        r
    }

    /// The filter that selects entries whose attribute `n` holds `v`.
    pub fn eq(n: &str, v: &str) -> (r: Filter)
        ensures
            r@ == FilterView::AnyOf(seq![(n@, v@)]),
    {
        let r = Filter::AnyOf(vec![(n.to_owned(), v.to_owned())]);
        assert(r@ == FilterView::AnyOf(seq![(n@, v@)])) by {
            if let Filter::AnyOf(ps) = r {
                assert(ps@.map_values(|p: (String, String)| (p.0@, p.1@)) =~= seq![(n@, v@)]);
            }
        }
        r
    }
}

impl Server {
    pub open spec fn wf(&self) -> bool {
        self@.wf()
    }

    pub open spec fn domain(&self) -> Seq<char> {
        self@.domain()
    }

    /// A store that holds only the domain-info entry, with `domain_name`.
    pub fn new(domain_name: &str) -> (r: Server)
        ensures
            r.wf(),
            r.domain() == domain_name@,
            r@.entries.len() == 1,
            r@.next_id == 2,
            r@.entries[0].id == 1,
            r@.consistent(),
    {
        let mut e = Entry::new_with_uuid(UUID_DOMAIN_INFO);
        let vs = vec![domain_name.to_owned()];
        assert(strings_view(vs@) =~= seq![domain_name@]);
        let _ = e.set_values("domain_name", vs);
        proof {
            lemma_set_vals(seq![], attr_domain_name(), seq![domain_name@], attr_class());
            lemma_set_vals(seq![], attr_domain_name(), seq![domain_name@], attr_domain_name());
            lemma_attr_names_distinct();
        }
        let _ = e.seal();
        e.set_id(1);
        e.set_existing();
        let r = Server { entries: vec![e], next_id: 2 };
        assert(r@.entries[0].vals(attr_class()) =~= Seq::<Seq<char>>::empty());
        r
    }

    pub fn len(&self) -> (r: usize)
        ensures
            r == self@.entries.len(),
    {
        self.entries.len()
    }

    pub fn entry_at(&self, i: usize) -> (r: &Entry)
        requires
            i < self@.entries.len(),
        ensures
            r@ == self@.entries[i as int],
    {
        &self.entries[i]
    }

    /// The domain name that derives every spn.
    pub fn get_domain_name(&self) -> (r: String)
        requires
            self.wf(),
        ensures
            r@ == self.domain(),
    {
        match self.entries[0].get_single("domain_name") {
            Some(d) => d,
            None => String::new(),
        }
    }

    /// A copy of the committed entry with stable identifier `u`.
    pub fn search_uuid(&self, u: u128) -> (r: Option<Entry>)
        ensures
            match r {
                Some(e) => exists|i: int|
                    0 <= i < self@.entries.len() && self@.entries[i] == e@ && e@.uuid == Some(u),
                None => forall|i: int|
                    0 <= i < self@.entries.len() ==> self@.entries[i].uuid != Some(u),
            },
    {
        let mut i: usize = 0;
        while i < self.entries.len()
            invariant
                i <= self@.entries.len(),
                forall|j: int| 0 <= j < i ==> self@.entries[j].uuid != Some(u),
            decreases self.entries.len() - i,
        {
            if self.entries[i].get_uuid() == Some(u) {
                let r = self.entries[i].duplicate();
                assert(self@.entries[i as int] == r@);
                return Some(r);
            }
            i += 1;
        }
        None
    }

    /// Steps of one write without its post hooks: select, clone, edit,
    /// derive, validate and seal, persist. On failure nothing changes. Gives
    /// back the pre-images and which entries were touched.
    pub(crate) fn write(&mut self, f: &Filter, mods: &Vec<Modify>) -> (r: Result<
        (Vec<Entry>, Vec<bool>),
        ErrorKind,
    >)
        requires
            old(self).wf(),
        ensures
            final(self).wf(),
            match write_outcome(old(self)@.entries, f@, modlist_view(mods@)) {
                Ok(s) => r matches Ok((pre, touched)) && final(self)@ == (ServerView {
                    entries: s,
                    ..old(self)@
                }) && entries_view(pre@) == old(self)@.entries && touched@ == touched_of(
                    old(self)@.entries,
                    f@,
                ),
                Err(k) => r == Err::<(Vec<Entry>, Vec<bool>), ErrorKind>(k)
                    && final(self)@ == old(self)@,
            },
    {
        let ghost s = self@.entries;
        let ghost ms = modlist_view(mods@);
        let n = self.entries.len();
        let mut touched: Vec<bool> = Vec::new();
        let mut work: Vec<Entry> = Vec::new();
        let mut i: usize = 0;
        while i < n
            invariant
                n == s.len(),
                s == self@.entries,
                ms == modlist_view(mods@),
                i <= n,
                touched@.len() == i,
                work@.len() == i,
                forall|j: int| 0 <= j < i ==> touched@[j] == filter_selects(s[j], f@),
                forall|j: int|
                    0 <= j < i ==> (#[trigger] work@[j])@ == if touched@[j] {
                        edited(s[j], ms)
                    } else {
                        s[j]
                    },
            decreases n - i,
        {
            if filter_selects_exec(&self.entries[i], f) {
                let mut c = self.entries[i].clone_for_modify();
                apply_modlist(&mut c, mods);
                work.push(c);
                touched.push(true);
            } else {
                work.push(self.entries[i].duplicate());
                touched.push(false);
            }
            i += 1;
        }
        let ghost w0 = entries_view(work@);
        assert forall|j: int| 0 <= j < n && touched@[j] implies (#[trigger] work@[j])@.seal
            == Seal::Unsealed by {
            assert(edited(s[j], ms).seal == Seal::Unsealed) by {
                self.lemma_edited_unsealed(s[j], ms);
            }
        }
        let pre_res = Spn::pre_modify(&*self, &mut work, &touched);
        if pre_res.is_err() {
            proof {
                let j = choose|j: int| 0 <= j < n && touched@[j] && lacks_name(w0[j]);
                assert(filter_selects(s[j], f@) && lacks_name(edited(s[j], ms)));
            }
            return Err(ErrorKind::InvalidEntryState);
        }
        assert(!exists|j: int| 0 <= j < n && filter_selects(s[j], f@) && lacks_name(edited(s[j], ms)))
            by {
            if exists|j: int| 0 <= j < n && filter_selects(s[j], f@) && lacks_name(edited(s[j], ms)) {
                let j = choose|j: int|
                    0 <= j < n && filter_selects(s[j], f@) && lacks_name(edited(s[j], ms));
                assert(touched@[j] && lacks_name(w0[j]));
            }
        }
        let ghost w1 = entries_view(work@);
        let mut k: usize = 0;
        while k < n
            invariant
                n == s.len() == work@.len() == touched@.len(),
                s == self@.entries,
                ms == modlist_view(mods@),
                self.wf(),
                k <= n,
                w1.len() == n,
                !exists|j: int| 0 <= j < n && filter_selects(s[j], f@) && lacks_name(edited(s[j], ms)),
                forall|j: int| 0 <= j < n ==> touched@[j] == filter_selects(s[j], f@),
                forall|j: int|
                    0 <= j < n ==> w1[j] == if touched@[j] {
                        regen(edited(s[j], ms), domain_of(s))
                    } else {
                        s[j]
                    },
                forall|j: int| 0 <= j < k && touched@[j] ==> w1[j].schema_valid(),
                forall|j: int|
                    0 <= j < n ==> (#[trigger] work@[j])@ == if j < k && touched@[j] {
                        w1[j].sealed()
                    } else {
                        w1[j]
                    },
            decreases n - k,
        {
            if touched[k] {
                let mut e = work[k].duplicate();
                proof {
                    self.lemma_regen_unsealed(edited(s[k as int], ms), domain_of(s));
                    self.lemma_edited_unsealed(s[k as int], ms);
                }
                let sr = e.seal();
                if sr.is_err() {
                    assert(filter_selects(s[k as int], f@) && !regen(
                        edited(s[k as int], ms),
                        domain_of(s),
                    ).schema_valid());
                    return Err(ErrorKind::SchemaViolation);
                }
                work.set(k, e);
            }
            k += 1;
        }
        let ghost out = Seq::new(
            s.len(),
            |i: int|
                if filter_selects(s[i], f@) {
                    regen(edited(s[i], ms), domain_of(s)).sealed()
                } else {
                    s[i]
                },
        );
        assert(!exists|j: int|
            0 <= j < n && filter_selects(s[j], f@) && !regen(edited(s[j], ms), domain_of(s)).schema_valid())
            by {
            if exists|j: int|
                0 <= j < n && filter_selects(s[j], f@) && !regen(
                    edited(s[j], ms),
                    domain_of(s),
                ).schema_valid() {
                let j = choose|j: int|
                    0 <= j < n && filter_selects(s[j], f@) && !regen(
                        edited(s[j], ms),
                        domain_of(s),
                    ).schema_valid();
                assert(touched@[j] && w1[j].schema_valid());
            }
        }
        assert(write_outcome(s, f@, ms) == Ok::<Seq<EntryView>, ErrorKind>(out));
        let mut pre = work;
        std::mem::swap(&mut self.entries, &mut pre);
        assert(self@.entries =~= out);
        proof {
            assert forall|j: int| 0 <= j < n implies (#[trigger] out[j]).uuid == s[j].uuid
                && out[j].origin == Origin::Existing by {
                if filter_selects(s[j], f@) {
                    self.lemma_regen_unsealed(edited(s[j], ms), domain_of(s));
                    self.lemma_edited_unsealed(s[j], ms);
                }
            }
        }
        assert(touched@ =~= touched_of(s, f@));
        Ok((pre, touched))
    }

    proof fn lemma_edited_unsealed(&self, e: EntryView, ms: Seq<ModifyView>)
        ensures
            edited(e, ms).seal == Seal::Unsealed,
            edited(e, ms).uuid == e.uuid,
            edited(e, ms).id == e.id,
            edited(e, ms).origin == Origin::Existing,
        decreases ms.len(),
    {
        lemma_mods_keep(EntryView { origin: Origin::Existing, seal: Seal::Unsealed, ..e }, ms);
    }

    proof fn lemma_regen_unsealed(&self, e: EntryView, d: Seq<char>)
        ensures
            regen(e, d).seal == e.seal,
            regen(e, d).uuid == e.uuid,
            regen(e, d).id == e.id,
            regen(e, d).origin == e.origin,
    {
    }

    /// A modification: the write, then the post hooks in the same
    /// transaction. The first failure aborts the whole of it.
    pub fn modify(&mut self, f: &Filter, mods: &Vec<Modify>) -> (r: Result<(), ErrorKind>)
        requires
            old(self).wf(),
        ensures
            final(self).wf(),
            match modify_outcome(old(self)@.entries, f@, modlist_view(mods@)) {
                Ok(s) => r is Ok && final(self)@ == (ServerView { entries: s, ..old(self)@ }),
                Err(k) => r == Err::<(), ErrorKind>(k) && final(self)@ == old(self)@,
            },
    {
        let (pre, touched) = match self.write(f, mods) {
            Ok(p) => p,
            Err(e) => {
                return Err(e);
            },
        };
        match Spn::post_modify(self, &pre, &touched) {
            Ok(()) => Ok(()),
            Err(e) => {
                self.entries = pre;
                Err(e)
            },
        }
    }

    /// Creates the candidates `cands`, where a candidate without a stable
    /// identifier takes the one at its index in `fresh`: plugins derive, the
    /// schema validates and seals, storage persists with new ids. The first
    /// failure aborts and nothing changes.
    pub fn create_with_uuids(&mut self, candidates: Vec<Entry>, fresh: &Vec<u128>) -> (r: Result<
        (),
        ErrorKind,
    >)
        requires
            old(self).wf(),
            fresh@.len() == candidates@.len(),
            forall|i: int|
                0 <= i < candidates@.len() ==> (#[trigger] candidates@[i])@.origin == Origin::New
                    && candidates@[i]@.seal == Seal::Unsealed,
        ensures
            final(self).wf(),
            create_done(old(self)@, entries_view(candidates@), fresh@, r, final(self)@),
    {
        let ghost s = self@;
        let ghost cs = entries_view(candidates@);
        let mut cands = candidates;
        let n = cands.len();
        let mut i: usize = 0;
        while i < n
            invariant
                n == cands@.len() == cs.len() == fresh@.len(),
                s == self@,
                s == old(self)@,
                cs == entries_view(candidates@),
                self.wf(),
                i <= n,
                forall|j: int|
                    0 <= j < n ==> (#[trigger] cands@[j])@ == if j < i {
                        filled(cs[j], fresh@[j])
                    } else {
                        cs[j]
                    },
            decreases n - i,
        {
            if cands[i].get_uuid().is_none() {
                let mut e = cands[i].duplicate();
                e.set_uuid(fresh[i]);
                cands.set(i, e);
            }
            i += 1;
        }
        let ghost a = filled_all(cs, fresh@);
        let ghost c = derived_all(cs, fresh@, domain_of(s.entries));
        assert(entries_view(cands@) =~= a);
        let ghost before = cands@;
        let pre = Spn::pre_create_transform(&*self, &mut cands);
        if pre.is_err() {
            proof {
                let j = choose|j: int| 0 <= j < n && lacks_name(#[trigger] before[j]@);
                assert(a[j] == entries_view(before)[j]);
            }
            return Err(ErrorKind::InvalidEntryState);
        }
        assert(!exists|j: int| 0 <= j < a.len() && lacks_name(a[j])) by {
            if exists|j: int| 0 <= j < a.len() && lacks_name(a[j]) {
                let j = choose|j: int| 0 <= j < a.len() && lacks_name(a[j]);
                assert(a[j] == entries_view(before)[j]);
                assert(lacks_name(before[j]@));
            }
        }
        assert(!exists|j: int| 0 <= j < a.len() && lacks_name(a[j]));
        let mut k: usize = 0;
        while k < n
            invariant
                n == cands@.len() == c.len(),
                k <= n,
                s == self@,
                s == old(self)@,
                cs == entries_view(candidates@),
                self.wf(),
                cs.len() == n,
                fresh@.len() == n,
                a == filled_all(cs, fresh@),
                c == derived_all(cs, fresh@, domain_of(s.entries)),
                !exists|j: int| 0 <= j < a.len() && lacks_name(a[j]),
                forall|j: int| 0 <= j < k ==> c[j].schema_valid(),
                forall|j: int|
                    0 <= j < n ==> (#[trigger] cands@[j])@ == if j < k {
                        c[j].sealed()
                    } else {
                        c[j]
                    },
            decreases n - k,
        {
            let mut e = cands[k].duplicate();
            let sr = e.seal();
            if sr.is_err() {
                assert(!c[k as int].schema_valid());
                assert(exists|j: int| 0 <= j < c.len() && !c[j].schema_valid());
                assert(!exists|j: int| 0 <= j < a.len() && lacks_name(a[j]));
                assert(create_outcome(s, cs, fresh@) == Err::<ServerView, ErrorKind>(
                    ErrorKind::SchemaViolation,
                ));
                return Err(ErrorKind::SchemaViolation);
            }
            cands.set(k, e);
            k += 1;
        }
        assert(!exists|j: int| 0 <= j < c.len() && !c[j].schema_valid());
        if n as u64 > u64::MAX - self.next_id {
            return Err(ErrorKind::StorageFailure);
        }
        let m = self.entries.len();
        let mut i: usize = 0;
        while i < n
            invariant
                n == cands@.len() == c.len(),
                m == self@.entries.len(),
                s == self@,
                s == old(self)@,
                cs == entries_view(candidates@),
                self.wf(),
                cs.len() == n,
                fresh@.len() == n,
                a == filled_all(cs, fresh@),
                c == derived_all(cs, fresh@, domain_of(s.entries)),
                !exists|j: int| 0 <= j < a.len() && lacks_name(a[j]),
                !exists|j: int| 0 <= j < c.len() && !c[j].schema_valid(),
                n as u64 <= u64::MAX - s.next_id,
                i <= n,
                forall|j: int| 0 <= j < n ==> (#[trigger] cands@[j])@ == c[j].sealed(),
                forall|p: int, q: int| 0 <= p < i && 0 <= q < m ==> c[p].uuid != s.entries[q].uuid,
                forall|p: int, q: int| 0 <= p < q < i ==> c[p].uuid != c[q].uuid,
            decreases n - i,
        {
            let u = cands[i].get_uuid();
            if uuid_taken(&self.entries, m, u) || uuid_taken(&cands, i, u) {
                proof {
                    if exists|q: int| 0 <= q < m && (#[trigger] self.entries@[q])@.uuid == u {
                        let q = choose|q: int| 0 <= q < m && (#[trigger] self.entries@[q])@.uuid == u;
                        assert(c[i as int].uuid == s.entries[q].uuid);
                    } else {
                        let q = choose|q: int| 0 <= q < i && (#[trigger] cands@[q])@.uuid == u;
                        assert(c[q].uuid == c[i as int].uuid);
                    }
                }
                return Err(ErrorKind::StorageFailure);
            }
            proof {
                assert forall|q: int| 0 <= q < m implies c[i as int].uuid != s.entries[q].uuid by {
                    assert((self.entries@[q])@.uuid != u);
                }
                assert forall|p: int| 0 <= p < i implies c[p].uuid != c[i as int].uuid by {
                    assert((cands@[p])@.uuid != u);
                }
            }
            i += 1;
        }
        assert(uuids_fresh(s.entries, c));
        let base = self.next_id;
        let mut i: usize = 0;
        while i < n
            invariant
                n == cands@.len() == c.len(),
                m + i == self@.entries.len(),
                m == s.entries.len(),
                base == s.next_id,
                self@.next_id == base,
                base + n <= u64::MAX,
                i <= n,
                forall|j: int| 0 <= j < n ==> (#[trigger] cands@[j])@ == c[j].sealed(),
                forall|j: int| 0 <= j < m ==> self@.entries[j] == s.entries[j],
                forall|j: int|
                    0 <= j < i ==> self@.entries[m + j] == committed(c[j], base + j),
            decreases n - i,
        {
            let mut e = cands[i].duplicate();
            e.set_id(base + i as u64);
            e.set_existing();
            self.entries.push(e);
            i += 1;
        }
        self.next_id = base + n as u64;
        let ghost out = ServerView {
            entries: s.entries + Seq::new(c.len(), |i: int| committed(c[i], s.next_id + i)),
            next_id: (s.next_id + c.len()) as u64,
        };
        assert(self@.entries =~= out.entries);
        assert(create_outcome(s, cs, fresh@) == Ok::<ServerView, ErrorKind>(out));
        Ok(())
    }

    /// Creates the candidates `cands`, drawing a random stable identifier
    /// for each that has none.
    pub fn create(&mut self, cands: Vec<Entry>) -> (r: Result<(), ErrorKind>)
        requires
            old(self).wf(),
            forall|i: int|
                0 <= i < cands@.len() ==> (#[trigger] cands@[i])@.origin == Origin::New
                    && cands@[i]@.seal == Seal::Unsealed,
        ensures
            final(self).wf(),
            exists|fresh: Seq<u128>|
                fresh.len() == cands@.len() && create_done(
                    old(self)@,
                    entries_view(cands@),
                    fresh,
                    r,
                    final(self)@,
                ),
    {
        let mut fresh: Vec<u128> = Vec::new();
        while fresh.len() < cands.len()
            invariant
                fresh@.len() <= cands@.len(),
            decreases cands@.len() - fresh@.len(),
        {
            fresh.push(rand::random::<u128>());
        }
        let ghost cs = entries_view(cands@);
        let r = self.create_with_uuids(cands, &fresh);
        assert(fresh@.len() == cs.len());
        r
    }

    /// Renames the domain: every spn is derived anew in the same transaction.
    pub fn domain_rename(&mut self, new_name: &str) -> (r: Result<(), ErrorKind>)
        requires
            old(self).wf(),
        ensures
            final(self).wf(),
            match modify_outcome(
                old(self)@.entries,
                FilterView::Uuid(UUID_DOMAIN_INFO),
                seq![ModifyView::Replace(attr_domain_name(), new_name@)],
            ) {
                Ok(s) => r is Ok && final(self)@ == (ServerView { entries: s, ..old(self)@ }),
                Err(k) => r == Err::<(), ErrorKind>(k) && final(self)@ == old(self)@,
            },
    {
        let mods = vec![Modify::Replace("domain_name".to_owned(), new_name.to_owned())];
        assert(modlist_view(mods@) =~= seq![
            ModifyView::Replace(attr_domain_name(), new_name@),
        ]);
        self.modify(&Filter::Uuid(UUID_DOMAIN_INFO), &mods)
    }

    /// The audit in its strict form: the first finding is an error.
    pub fn verify_strict(&self) -> (r: Result<(), ConsistencyError>)
        requires
            self.wf(),
        ensures
            r is Ok <==> spn_report(self@.entries, self.domain()).len() == 0,
            r matches Err(e) ==> e == spn_report(self@.entries, self.domain())[0],
    {
        let report = Spn::verify(self);
        if report.len() == 0 {
            Ok(())
        } else {
            Err(report[0])
        }
    }

    /// Writes attribute `n` of the `i`-th committed entry straight to the
    /// store, past the plugins and the schema, as a repair tool or a fault
    /// would. The domain name is out of its reach.
    pub fn backend_write(&mut self, i: usize, n: &str, vs: Vec<String>)
        requires
            old(self).wf(),
            i < old(self)@.entries.len(),
            !names_match(n@, attr_domain_name()),
        ensures
            final(self).wf(),
            final(self)@ == (ServerView {
                entries: old(self)@.entries.update(
                    i as int,
                    old(self)@.entries[i as int].with_attr(n@, strings_view(vs@)),
                ),
                ..old(self)@
            }),
    {
        let mut e = self.entries[i].duplicate();
        e.put_values(n, vs);
        self.entries.set(i, e);
        proof {
            lemma_set_vals(old(self)@.entries[i as int].attrs, n@, strings_view(vs@), attr_domain_name());
        }
        assert(self@.entries =~= old(self)@.entries.update(
            i as int,
            old(self)@.entries[i as int].with_attr(n@, strings_view(vs@)),
        ));
    }

    /// Runs every plugin's audit over the committed entries.
    pub fn verify(&self) -> (r: Vec<ConsistencyError>)
        requires
            self.wf(),
        ensures
            r@ == spn_report(self@.entries, self.domain()),
    {
        Spn::verify(self)
    }
}

pub proof fn lemma_mods_keep(e: EntryView, ms: Seq<ModifyView>)
    ensures
        apply_mods(e, ms).seal == e.seal,
        apply_mods(e, ms).uuid == e.uuid,
        apply_mods(e, ms).id == e.id,
        apply_mods(e, ms).origin == e.origin,
    decreases ms.len(),
{
    if ms.len() > 0 {
        lemma_mods_keep(e, ms.drop_last());
    }
}

} // verus!
