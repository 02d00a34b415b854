use crate::error::ErrorKind;
use vstd::prelude::*;

verus! {

/// The fixed stable identifier of the domain-info singleton.
pub const UUID_DOMAIN_INFO: u128 = 0xffffff000025;

/// Attribute name to values, as (name, values) pairs. The first pair with a
/// given name holds that attribute's values.
pub type AttrsView = Seq<(Seq<char>, Seq<Seq<char>>)>;

pub open spec fn attr_class() -> Seq<char> {
    "class"@
}

pub open spec fn attr_name() -> Seq<char> {
    "name"@
}

pub open spec fn attr_spn() -> Seq<char> {
    "spn"@
}

pub open spec fn attr_domain_name() -> Seq<char> {
    "domain_name"@
}

pub open spec fn class_account() -> Seq<char> {
    "account"@
}

pub open spec fn class_group() -> Seq<char> {
    "group"@
}

/// Two characters that are equal, or the capital and small form of one
/// ASCII letter.
pub open spec fn same_letter(a: char, b: char) -> bool {
    let x = a as u32;
    let y = b as u32;
    ||| x == y
    ||| 65 <= x && x <= 90 && y == x + 32
    ||| 65 <= y && y <= 90 && x == y + 32
}

/// Attribute names are compared without regard to ASCII case.
pub open spec fn names_match(a: Seq<char>, b: Seq<char>) -> bool {
    a.len() == b.len() && forall|i: int| 0 <= i < a.len() ==> #[trigger] same_letter(a[i], b[i])
}

pub proof fn lemma_names_match_equiv(a: Seq<char>, b: Seq<char>, c: Seq<char>)
    ensures
        names_match(a, a),
        names_match(a, b) ==> names_match(b, a),
        names_match(a, b) && names_match(b, c) ==> names_match(a, c),
{
    if names_match(a, b) {
        assert forall|i: int| 0 <= i < b.len() implies #[trigger] same_letter(b[i], a[i]) by {
            assert(same_letter(a[i], b[i]));
        }
        if names_match(b, c) {
            assert forall|i: int| 0 <= i < a.len() implies #[trigger] same_letter(a[i], c[i]) by {
                assert(same_letter(a[i], b[i]));
                assert(same_letter(b[i], c[i]));
            }
        }
    }
    assert forall|i: int| 0 <= i < a.len() implies #[trigger] same_letter(a[i], a[i]) by {}
}

/// The values of attribute `n`; empty where it is absent.
pub open spec fn attr_vals(a: AttrsView, n: Seq<char>) -> Seq<Seq<char>>
    decreases a.len(),
{
    if a.len() == 0 {
        Seq::empty()
    } else if names_match(a[0].0, n) {
        a[0].1
    } else {
        attr_vals(a.drop_first(), n)
    }
}

/// `a` with the values of attribute `n` set to `v`; a name already there
/// keeps its spelling.
pub open spec fn attr_set(a: AttrsView, n: Seq<char>, v: Seq<Seq<char>>) -> AttrsView
    decreases a.len(),
{
    if a.len() == 0 {
        seq![(n, v)]
    } else if names_match(a[0].0, n) {
        a.update(0, (a[0].0, v))
    } else {
        seq![a[0]] + attr_set(a.drop_first(), n, v)
    }
}

/// The principal name of `name` in `domain`: `name@domain`.
pub open spec fn spn_of(name: Seq<char>, domain: Seq<char>) -> Seq<char> {
    name + "@"@ + domain
}

/// Whether a candidate was made new or cloned from a committed entry.
#[derive(PartialEq, Eq, Structural, Clone, Copy, Debug)]
pub enum Origin {
    New,
    Existing,
}

/// Whether the attributes of an entry may still change.
#[derive(PartialEq, Eq, Structural, Clone, Copy, Debug)]
pub enum Seal {
    Unsealed,
    Sealed,
}

pub ghost struct EntryView {
    pub uuid: Option<u128>,
    pub id: u64,
    pub origin: Origin,
    pub seal: Seal,
    pub attrs: AttrsView,
}

impl EntryView {
    pub open spec fn vals(self, n: Seq<char>) -> Seq<Seq<char>> {
        attr_vals(self.attrs, n)
    }

    /// The one value of `n`; none where it has zero or several.
    pub open spec fn single(self, n: Seq<char>) -> Option<Seq<char>> {
        if self.vals(n).len() == 1 {
            Some(self.vals(n)[0])
        } else {
            None
        }
    }

    pub open spec fn has(self, n: Seq<char>, v: Seq<char>) -> bool {
        self.vals(n).contains(v)
    }

    /// Accounts and groups carry a derived spn.
    pub open spec fn is_spn_target(self) -> bool {
        self.has(attr_class(), class_account()) || self.has(attr_class(), class_group())
    }

    pub open spec fn with_attr(self, n: Seq<char>, v: Seq<Seq<char>>) -> EntryView {
        EntryView { attrs: attr_set(self.attrs, n, v), ..self }
    }

    pub open spec fn sealed(self) -> EntryView {
        EntryView { seal: Seal::Sealed, ..self }
    }

    /// The spn this entry should carry in `domain`; none without a single name.
    pub open spec fn gen_spn(self, domain: Seq<char>) -> Option<Seq<char>> {
        match self.single(attr_name()) {
            Some(n) => Some(spn_of(n, domain)),
            None => None,
        }
    }

    /// The schema rule that every sealed entry meets: it has a stable
    /// identifier, and the domain-info entry holds one domain name.
    pub open spec fn schema_valid(self) -> bool {
        &&& self.uuid is Some
        &&& self.uuid == Some(UUID_DOMAIN_INFO) ==> self.single(attr_domain_name()) is Some
    }

    /// Its spn is the one derived from its name in `domain`, or it is no
    /// account or group.
    pub open spec fn spn_ok(self, domain: Seq<char>) -> bool {
        self.is_spn_target() ==> (self.gen_spn(domain) is Some && self.vals(attr_spn())
            == seq![self.gen_spn(domain).unwrap()])
    }
}

pub open spec fn strings_view(v: Seq<String>) -> Seq<Seq<char>> {
    v.map_values(|s: String| s@)
}

pub open spec fn opt_view(o: Option<String>) -> Option<Seq<char>> {
    match o {
        Some(s) => Some(s@),
        None => None,
    }
}

/// An entry: a stable identifier, a storage id, a lifecycle tag and its attributes.
pub struct Entry {
    uuid: Option<u128>,
    id: u64,
    origin: Origin,
    seal: Seal,
    attrs: Vec<(String, Vec<String>)>,
}

pub open spec fn attrs_view(a: Seq<(String, Vec<String>)>) -> AttrsView {
    a.map_values(|p: (String, Vec<String>)| (p.0@, strings_view(p.1@)))
}

impl View for Entry {
    type V = EntryView;

    closed spec fn view(&self) -> EntryView {
        EntryView {
            uuid: self.uuid,
            id: self.id,
            origin: self.origin,
            seal: self.seal,
            attrs: attrs_view(self.attrs@),
        }
    }
}

proof fn lemma_vals_first(a: AttrsView, n: Seq<char>, i: int)
    requires
        0 <= i < a.len(),
        names_match(a[i].0, n),
        forall|j: int| 0 <= j < i ==> !names_match(a[j].0, n),
    ensures
        attr_vals(a, n) == a[i].1,
    decreases i,
{
    if i > 0 {
        lemma_vals_first(a.drop_first(), n, i - 1);
    }
}

proof fn lemma_set_first(a: AttrsView, n: Seq<char>, v: Seq<Seq<char>>, i: int)
    requires
        0 <= i < a.len(),
        names_match(a[i].0, n),
        forall|j: int| 0 <= j < i ==> !names_match(a[j].0, n),
    ensures
        attr_set(a, n, v) == a.update(i, (a[i].0, v)),
    decreases i,
{
    if i > 0 {
        lemma_set_first(a.drop_first(), n, v, i - 1);
        assert(attr_set(a, n, v) =~= a.update(i, (a[i].0, v)));
    }
}

proof fn lemma_absent(a: AttrsView, n: Seq<char>, v: Seq<Seq<char>>)
    requires
        forall|j: int| 0 <= j < a.len() ==> !names_match(a[j].0, n),
    ensures
        attr_vals(a, n) == Seq::<Seq<char>>::empty(),
        attr_set(a, n, v) == a.push((n, v)),
    decreases a.len(),
{
    if a.len() > 0 {
        lemma_absent(a.drop_first(), n, v);
        assert(attr_set(a, n, v) =~= a.push((n, v)));
    }
}

/// Setting one attribute leaves the others as they were.
pub proof fn lemma_set_vals(a: AttrsView, n: Seq<char>, v: Seq<Seq<char>>, m: Seq<char>)
    ensures
        attr_vals(attr_set(a, n, v), m) == (if names_match(n, m) {
            v
        } else {
            attr_vals(a, m)
        }),
    decreases a.len(),
{
    if a.len() > 0 {
        lemma_names_match_equiv(a[0].0, n, m);
        lemma_names_match_equiv(n, a[0].0, m);
        lemma_names_match_equiv(a[0].0, m, n);
        lemma_names_match_equiv(m, n, a[0].0);
        lemma_names_match_equiv(n, m, a[0].0);
    } else {
        lemma_names_match_equiv(n, m, n);
    }
    if a.len() == 0 {
        let s: AttrsView = seq![(n, v)];
        assert(s[0] == (n, v));
        assert(s.drop_first() =~= Seq::<(Seq<char>, Seq<Seq<char>>)>::empty());
        assert(attr_vals(s.drop_first(), m) == Seq::<Seq<char>>::empty());
    } else if !names_match(a[0].0, n) {
        lemma_set_vals(a.drop_first(), n, v, m);
        let s = seq![a[0]] + attr_set(a.drop_first(), n, v);
        assert(s[0] == a[0]);
        assert(s.drop_first() =~= attr_set(a.drop_first(), n, v));
    } else {
        let s = a.update(0, (a[0].0, v));
        assert(s[0] == (a[0].0, v));
        assert(s.drop_first() =~= a.drop_first());
    }
}

/// The attribute names that the store itself reads are distinct.
pub proof fn lemma_attr_names_distinct()
    ensures
        !names_match(attr_class(), attr_name()),
        !names_match(attr_class(), attr_spn()),
        !names_match(attr_class(), attr_domain_name()),
        !names_match(attr_name(), attr_spn()),
        !names_match(attr_name(), attr_domain_name()),
        !names_match(attr_spn(), attr_domain_name()),
        !names_match(attr_name(), attr_class()),
        !names_match(attr_spn(), attr_class()),
        !names_match(attr_domain_name(), attr_class()),
        !names_match(attr_spn(), attr_name()),
        !names_match(attr_domain_name(), attr_name()),
        !names_match(attr_domain_name(), attr_spn()),
{
    reveal_strlit("class");
    reveal_strlit("name");
    reveal_strlit("spn");
    reveal_strlit("domain_name");
    assert(attr_class().len() != attr_name().len());
    assert(attr_class().len() != attr_spn().len());
    assert(attr_class().len() != attr_domain_name().len());
    assert(attr_name().len() != attr_spn().len());
    assert(attr_name().len() != attr_domain_name().len());
    assert(attr_spn().len() != attr_domain_name().len());
}

fn same_letter_exec(a: char, b: char) -> (r: bool)
    ensures
        r == same_letter(a, b),
{
    let x = a as u32;
    let y = b as u32;
    x == y || (65 <= x && x <= 90 && y == x + 32) || (65 <= y && y <= 90 && x == y + 32)
}

/// Whether two attribute names match, ASCII case aside.
pub fn name_eq(a: &str, b: &str) -> (r: bool)
    ensures
        r == names_match(a@, b@),
{
    let n = a.unicode_len();
    if n != b.unicode_len() {
        return false;
    }
    let mut i: usize = 0;
    while i < n
        invariant
            n == a@.len() == b@.len(),
            i <= n,
            forall|j: int| 0 <= j < i ==> #[trigger] same_letter(a@[j], b@[j]),
        decreases n - i,
    {
        if !same_letter_exec(a.get_char(i), b.get_char(i)) {
            return false;
        }
        i += 1;
    }
    true
}

fn copy_strings(v: &Vec<String>) -> (r: Vec<String>)
    ensures
        strings_view(r@) == strings_view(v@),
{
    let mut r: Vec<String> = Vec::new();
    let mut i: usize = 0;
    while i < v.len()
        invariant
            i <= v.len(),
            r@ =~= v@.subrange(0, i as int),
        decreases v.len() - i,
    {
        r.push(v[i].clone());
        i += 1;
        assert(r@ =~= v@.subrange(0, i as int));
    }
    assert(v@.subrange(0, i as int) =~= v@);
    r
}

impl Entry {
    /// A new, unsealed candidate without attributes or identifier.
    pub fn create_candidate() -> (r: Entry)
        ensures
            r@ == (EntryView {
                uuid: None,
                id: 0,
                origin: Origin::New,
                seal: Seal::Unsealed,
                attrs: seq![],
            }),
    {
        let r = Entry { uuid: None, id: 0, origin: Origin::New, seal: Seal::Unsealed, attrs: Vec::new() };
        assert(attrs_view(r.attrs@) =~= seq![]);
        r
    }

    /// A new, unsealed candidate with the stable identifier `u`.
    pub fn new_with_uuid(u: u128) -> (r: Entry)
        ensures
            r@ == (EntryView {
                uuid: Some(u),
                id: 0,
                origin: Origin::New,
                seal: Seal::Unsealed,
                attrs: seq![],
            }),
    {
        let r = Entry { uuid: Some(u), id: 0, origin: Origin::New, seal: Seal::Unsealed, attrs: Vec::new() };
        assert(attrs_view(r.attrs@) =~= seq![]);
        r
    }

    pub fn get_uuid(&self) -> (r: Option<u128>)
        ensures
            r == self@.uuid,
    {
        self.uuid
    }

    pub fn get_id(&self) -> (r: u64)
        ensures
            r == self@.id,
    {
        self.id
    }

    pub fn is_sealed(&self) -> (r: bool)
        ensures
            r == (self@.seal == Seal::Sealed),
    {
        self.seal == Seal::Sealed
    }

    pub fn is_new(&self) -> (r: bool)
        ensures
            r == (self@.origin == Origin::New),
    {
        self.origin == Origin::New
    }

    /// The index of the first pair named `n`.
    fn find(&self, n: &String) -> (r: Option<usize>)
        ensures
            match r {
                Some(i) => {
                    &&& i < self@.attrs.len()
                    &&& names_match(self@.attrs[i as int].0, n@)
                    &&& forall|j: int| 0 <= j < i ==> !names_match(self@.attrs[j].0, n@)
                },
                None => forall|j: int|
                    0 <= j < self@.attrs.len() ==> !names_match(self@.attrs[j].0, n@),
            },
    {
        let mut i: usize = 0;
        while i < self.attrs.len()
            invariant
                i <= self.attrs.len(),
                forall|j: int| 0 <= j < i ==> !names_match(self@.attrs[j].0, n@),
            decreases self.attrs.len() - i,
        {
            if name_eq(self.attrs[i].0.as_str(), n.as_str()) {
                return Some(i);
            }
            i += 1;
        }
        None
    }

    proof fn lemma_find_vals(&self, n: Seq<char>, r: Option<usize>)
        requires
            match r {
                Some(i) => {
                    &&& i < self@.attrs.len()
                    &&& names_match(self@.attrs[i as int].0, n)
                    &&& forall|j: int| 0 <= j < i ==> !names_match(self@.attrs[j].0, n)
                },
                None => forall|j: int| 0 <= j < self@.attrs.len() ==> !names_match(self@.attrs[j].0, n),
            },
        ensures
            self@.vals(n) == match r {
                Some(i) => strings_view(self.attrs@[i as int].1@),
                None => Seq::<Seq<char>>::empty(),
            },
    {
        match r {
            Some(i) => lemma_vals_first(self@.attrs, n, i as int),
            None => lemma_absent(self@.attrs, n, seq![]),
        }
    }

    /// The values of attribute `n`.
    pub fn get_values(&self, n: &str) -> (r: Vec<String>)
        ensures
            strings_view(r@) == self@.vals(n@),
    {
        let key = n.to_owned();
        let f = self.find(&key);
        proof {
            self.lemma_find_vals(n@, f);
        }
        match f {
            Some(i) => copy_strings(&self.attrs[i].1),
            None => {
                let r: Vec<String> = Vec::new();
                assert(strings_view(r@) =~= Seq::<Seq<char>>::empty());
                r
            },
        }
    }

    /// The one value of `n`, or none where it has zero or several.
    pub fn get_single(&self, n: &str) -> (r: Option<String>)
        ensures
            opt_view(r) == self@.single(n@),
    {
        let key = n.to_owned();
        let f = self.find(&key);
        proof {
            self.lemma_find_vals(n@, f);
        }
        match f {
            Some(i) => {
                if self.attrs[i].1.len() == 1 {
                    Some(self.attrs[i].1[0].clone())
                } else {
                    None
                }
            },
            None => None,
        }
    }

    /// Whether attribute `n` holds value `v`.
    pub fn attribute_present(&self, n: &str, v: &str) -> (r: bool)
        ensures
            r == self@.has(n@, v@),
    {
        let key = n.to_owned();
        let val = v.to_owned();
        let f = self.find(&key);
        proof {
            self.lemma_find_vals(n@, f);
        }
        match f {
            Some(i) => {
                let ghost vs = self.attrs@[i as int].1@;
                let mut k: usize = 0;
                while k < self.attrs[i].1.len()
                    invariant
                        i < self.attrs.len(),
                        vs == self.attrs@[i as int].1@,
                        val@ == v@,
                        self@.vals(n@) == strings_view(vs),
                        k <= vs.len(),
                        forall|j: int| 0 <= j < k ==> vs[j]@ != v@,
                    decreases vs.len() - k,
                {
                    if self.attrs[i].1[k] == val {
                        assert(strings_view(vs)[k as int] == v@);
                        assert(strings_view(vs).contains(v@));
                        return true;
                    }
                    k += 1;
                }
                assert(!strings_view(vs).contains(v@));
                false
            },
            None => false,
        }
    }

    /// Sets the values of attribute `n` to `vs`; refused once sealed.
    pub fn set_values(&mut self, n: &str, vs: Vec<String>) -> (r: Result<(), ErrorKind>)
        ensures
            old(self)@.seal == Seal::Sealed ==> r == Err::<(), ErrorKind>(
                ErrorKind::SealedEntryMutation,
            ) && final(self)@ == old(self)@,
            old(self)@.seal == Seal::Unsealed ==> r is Ok && final(self)@ == old(self)@.with_attr(
                n@,
                strings_view(vs@),
            ),
    {
        if self.seal == Seal::Sealed {
            return Err(ErrorKind::SealedEntryMutation);
        }
        self.put_values(n, vs);
        Ok(())
    }

    /// Sets the values of attribute `n` whatever the lifecycle tag: the
    /// storage layer's own write.
    pub(crate) fn put_values(&mut self, n: &str, vs: Vec<String>)
        ensures
            final(self)@ == old(self)@.with_attr(n@, strings_view(vs@)),
    {
        let key = n.to_owned();
        let f = self.find(&key);
        let ghost old_attrs = self@.attrs;
        match f {
            Some(i) => {
                proof {
                    lemma_set_first(old_attrs, n@, strings_view(vs@), i as int);
                }
                let name = self.attrs[i].0.clone();
                self.attrs.set(i, (name, vs));
                assert(self@.attrs =~= old_attrs.update(
                    i as int,
                    (old_attrs[i as int].0, strings_view(vs@)),
                ));
            },
            None => {
                proof {
                    lemma_absent(old_attrs, n@, strings_view(vs@));
                }
                self.attrs.push((key, vs));
                assert(self@.attrs =~= old_attrs.push((n@, strings_view(vs@))));
            },
        }
    }

    /// Removes every value of attribute `n`; refused once sealed.
    pub fn purge(&mut self, n: &str) -> (r: Result<(), ErrorKind>)
        ensures
            old(self)@.seal == Seal::Sealed ==> r == Err::<(), ErrorKind>(
                ErrorKind::SealedEntryMutation,
            ) && final(self)@ == old(self)@,
            old(self)@.seal == Seal::Unsealed ==> r is Ok && final(self)@ == old(self)@.with_attr(
                n@,
                seq![],
            ),
    {
        let vs: Vec<String> = Vec::new();
        assert(strings_view(vs@) =~= seq![]);
        self.set_values(n, vs)
    }

    /// Adds `v` to the values of attribute `n` where it is not there yet;
    /// refused once sealed.
    pub fn add_value(&mut self, n: &str, v: &str) -> (r: Result<(), ErrorKind>)
        ensures
            old(self)@.seal == Seal::Sealed ==> r == Err::<(), ErrorKind>(
                ErrorKind::SealedEntryMutation,
            ) && final(self)@ == old(self)@,
            old(self)@.seal == Seal::Unsealed ==> r is Ok && final(self)@ == (if old(self)@.has(
                n@,
                v@,
            ) {
                old(self)@
            } else {
                old(self)@.with_attr(n@, old(self)@.vals(n@).push(v@))
            }),
    {
        if self.seal == Seal::Sealed {
            return Err(ErrorKind::SealedEntryMutation);
        }
        if self.attribute_present(n, v) {
            return Ok(());
        }
        let mut vs = self.get_values(n);
        vs.push(v.to_owned());
        assert(strings_view(vs@) =~= old(self)@.vals(n@).push(v@));
        self.set_values(n, vs)
    }

    /// The spn of this entry in `domain`: `name@domain`, or none where the
    /// entry has no single name.
    pub fn generate_spn(&self, domain: &str) -> (r: Option<String>)
        ensures
            opt_view(r) == self@.gen_spn(domain@),
    {
        match self.get_single("name") {
            Some(n) => {
                let mut s = n;
                s.append("@");
                s.append(domain);
                Some(s)
            },
            None => None,
        }
    }

    /// A copy of this entry in the same state.
    pub fn duplicate(&self) -> (r: Entry)
        ensures
            r@ == self@,
    {
        let mut attrs: Vec<(String, Vec<String>)> = Vec::new();
        let mut i: usize = 0;
        while i < self.attrs.len()
            invariant
                i <= self.attrs.len(),
                attrs@.len() == i,
                forall|j: int|
                    0 <= j < i ==> #[trigger] attrs@[j].0@ == self.attrs@[j].0@ && strings_view(
                        attrs@[j].1@,
                    ) == strings_view(self.attrs@[j].1@),
            decreases self.attrs.len() - i,
        {
            let name = self.attrs[i].0.clone();
            let vals = copy_strings(&self.attrs[i].1);
            attrs.push((name, vals));
            i += 1;
        }
        assert(attrs_view(attrs@) =~= attrs_view(self.attrs@));
        Entry { uuid: self.uuid, id: self.id, origin: self.origin, seal: self.seal, attrs }
    }

    /// The working copy of a committed entry that a modification edits.
    pub fn clone_for_modify(&self) -> (r: Entry)
        ensures
            r@ == (EntryView { origin: Origin::Existing, seal: Seal::Unsealed, ..self@ }),
    {
        let mut r = self.duplicate();
        r.origin = Origin::Existing;
        r.seal = Seal::Unsealed;
        r
    }

    /// Seals the entry where it meets the schema; fails with
    /// `SchemaViolation` otherwise and leaves it unsealed.
    pub fn seal(&mut self) -> (r: Result<(), ErrorKind>)
        ensures
            old(self)@.schema_valid() ==> r is Ok && final(self)@ == old(self)@.sealed(),
            !old(self)@.schema_valid() ==> r == Err::<(), ErrorKind>(ErrorKind::SchemaViolation)
                && final(self)@ == old(self)@,
    {
        if self.uuid.is_none() {
            return Err(ErrorKind::SchemaViolation);
        }
        if self.uuid == Some(UUID_DOMAIN_INFO) && self.get_single("domain_name").is_none() {
            return Err(ErrorKind::SchemaViolation);
        }
        self.seal = Seal::Sealed;
        Ok(())
    }

    /// Gives a candidate its stable identifier.
    pub(crate) fn set_uuid(&mut self, u: u128)
        ensures
            final(self)@ == (EntryView { uuid: Some(u), ..old(self)@ }),
    {
        self.uuid = Some(u);
    }

    /// Records the storage id given at commit.
    pub(crate) fn set_id(&mut self, id: u64)
        ensures
            final(self)@ == (EntryView { id: id, ..old(self)@ }),
    {
        self.id = id;
    }

    /// Marks a sealed candidate as the existing entry it became at commit.
    pub(crate) fn set_existing(&mut self)
        ensures
            final(self)@ == (EntryView { origin: Origin::Existing, ..old(self)@ }),
    {
        self.origin = Origin::Existing;
    }
}

} // verus!
