use crate::entry::{
    attr_class, attr_domain_name, attr_name, attr_set, attr_spn, attr_vals, class_account,
    class_group, lemma_attr_names_distinct, names_match, lemma_set_vals, spn_of, AttrsView, EntryView, Origin,
    Seal, UUID_DOMAIN_INFO,
};
use crate::error::{ConsistencyError, ErrorKind};
use crate::server::{
    apply_mods, create_outcome, lemma_mods_keep, derived_all, domain_of, edited, filled, filled_all, filter_selects,
    holds_any, pair_held,
    modify_outcome, purge_spn, spn_holders, touched_of, write_outcome, FilterView, ModifyView,
    ServerView,
};
use crate::spn::{domain_changed, lacks_name, regen, spn_report};
use vstd::prelude::*;

verus! {

/// The modification that renames the domain to `new_name`.
pub open spec fn rename_mods(new_name: Seq<char>) -> Seq<ModifyView> {
    seq![ModifyView::Replace(attr_domain_name(), new_name)]
}

proof fn lemma_set_same(a: AttrsView, n: Seq<char>)
    requires
        attr_vals(a, n).len() > 0,
    ensures
        attr_set(a, n, attr_vals(a, n)) == a,
    decreases a.len(),
{
    if names_match(a[0].0, n) {
        assert(a.update(0, (a[0].0, a[0].1)) =~= a);
    } else {
        lemma_set_same(a.drop_first(), n);
        assert(seq![a[0]] + a.drop_first() =~= a);
    }
}

/// What setting attribute `n` keeps of an entry.
proof fn lemma_with_attr(e: EntryView, n: Seq<char>, v: Seq<Seq<char>>)
    ensures
        !names_match(n, attr_class()) ==> e.with_attr(n, v).is_spn_target() == e.is_spn_target(),
        !names_match(n, attr_name()) ==> e.with_attr(n, v).single(attr_name()) == e.single(attr_name()),
        !names_match(n, attr_domain_name()) ==> e.with_attr(n, v).single(attr_domain_name()) == e.single(
            attr_domain_name(),
        ),
        e.with_attr(n, v).vals(n) == v,
        !names_match(n, attr_spn()) ==> e.with_attr(n, v).vals(attr_spn()) == e.vals(attr_spn()),
{
    lemma_set_vals(e.attrs, n, v, attr_class());
    lemma_set_vals(e.attrs, n, v, attr_name());
    lemma_set_vals(e.attrs, n, v, attr_domain_name());
    lemma_set_vals(e.attrs, n, v, attr_spn());
    lemma_set_vals(e.attrs, n, v, n);
}

/// Deriving the spn changes nothing else that the store reads, and gives an
/// account or group with one name the spn it should have.
proof fn lemma_regen(e: EntryView, d: Seq<char>)
    ensures
        regen(e, d).uuid == e.uuid,
        regen(e, d).id == e.id,
        regen(e, d).is_spn_target() == e.is_spn_target(),
        regen(e, d).single(attr_name()) == e.single(attr_name()),
        regen(e, d).single(attr_domain_name()) == e.single(attr_domain_name()),
        !lacks_name(e) ==> regen(e, d).spn_ok(d),
        e.spn_ok(d) && e.vals(attr_spn()).len() > 0 ==> regen(e, d) == e,
{
    lemma_attr_names_distinct();
    if e.is_spn_target() && e.gen_spn(d) is Some {
        lemma_with_attr(e, attr_spn(), seq![e.gen_spn(d).unwrap()]);
        if e.spn_ok(d) {
            lemma_set_same(e.attrs, attr_spn());
        }
    }
}

/// The accounts and groups are what the spn filter selects.
proof fn lemma_holders(e: EntryView)
    ensures
        filter_selects(e, spn_holders()) == e.is_spn_target(),
{
    let ps = seq![(attr_class(), class_group()), (attr_class(), class_account())];
    assert(spn_holders() == FilterView::AnyOf(ps));
    assert(ps.len() == 2);
    assert(ps[0] == (attr_class(), class_group()));
    assert(ps[1] == (attr_class(), class_account()));
    if filter_selects(e, spn_holders()) {
        let k = choose|k: int| 0 <= k < ps.len() && #[trigger] pair_held(e, ps[k]);
        if k == 0 {
            assert(e.has(attr_class(), class_group()));
        } else {
            assert(e.has(attr_class(), class_account()));
        }
    }
    if e.is_spn_target() {
        if e.has(attr_class(), class_group()) {
            assert(pair_held(e, ps[0]));
            assert(holds_any(e, ps));
        } else {
            assert(pair_held(e, ps[1]));
            assert(holds_any(e, ps));
        }
    }
}

proof fn lemma_purge_spn(e: EntryView)
    ensures
        edited(e, purge_spn()).uuid == e.uuid,
        edited(e, purge_spn()).id == e.id,
        edited(e, purge_spn()).is_spn_target() == e.is_spn_target(),
        edited(e, purge_spn()).single(attr_name()) == e.single(attr_name()),
        edited(e, purge_spn()).single(attr_domain_name()) == e.single(attr_domain_name()),
{
    lemma_attr_names_distinct();
    let e0 = EntryView { origin: Origin::Existing, seal: Seal::Unsealed, ..e };
    assert(purge_spn().drop_last() =~= Seq::<ModifyView>::empty());
    assert(apply_mods(e0, Seq::<ModifyView>::empty()) == e0);
    assert(purge_spn().last() == ModifyView::Purge(attr_spn()));
    assert(edited(e, purge_spn()) == e0.with_attr(attr_spn(), seq![]));
    lemma_with_attr(e0, attr_spn(), seq![]);
}

proof fn lemma_rename_edit(e: EntryView, new_name: Seq<char>)
    ensures
        edited(e, rename_mods(new_name)).uuid == e.uuid,
        edited(e, rename_mods(new_name)).id == e.id,
        edited(e, rename_mods(new_name)).is_spn_target() == e.is_spn_target(),
        edited(e, rename_mods(new_name)).single(attr_name()) == e.single(attr_name()),
        edited(e, rename_mods(new_name)).single(attr_domain_name()) == Some(new_name),
        edited(e, rename_mods(new_name)).vals(attr_spn()) == e.vals(attr_spn()),
        e.vals(attr_domain_name()) == seq![new_name] ==> edited(e, rename_mods(new_name))
            == (EntryView { origin: Origin::Existing, seal: Seal::Unsealed, ..e }),
{
    lemma_attr_names_distinct();
    let e0 = EntryView { origin: Origin::Existing, seal: Seal::Unsealed, ..e };
    assert(rename_mods(new_name).drop_last() =~= Seq::<ModifyView>::empty());
    assert(apply_mods(e0, Seq::<ModifyView>::empty()) == e0);
    assert(rename_mods(new_name).last() == ModifyView::Replace(attr_domain_name(), new_name));
    assert(edited(e, rename_mods(new_name)) == e0.with_attr(attr_domain_name(), seq![new_name]));
    lemma_with_attr(e0, attr_domain_name(), seq![new_name]);
    if e.vals(attr_domain_name()) == seq![new_name] {
        lemma_set_same(e.attrs, attr_domain_name());
    }
}

/// A write of the accounts and groups that purges their spn derives every
/// spn anew in the domain of the store it runs on.
proof fn lemma_cascade(s1: Seq<EntryView>, s2: Seq<EntryView>)
    requires
        s1.len() >= 1,
        write_outcome(s1, spn_holders(), purge_spn()) == Ok::<Seq<EntryView>, ErrorKind>(s2),
    ensures
        s2.len() == s1.len(),
        s2[0].single(attr_domain_name()) == s1[0].single(attr_domain_name()),
        domain_of(s2) == domain_of(s1),
        forall|i: int| 0 <= i < s2.len() ==> (#[trigger] s2[i]).spn_ok(domain_of(s1)),
        forall|i: int| 0 <= i < s2.len() ==> (#[trigger] s2[i]).uuid == s1[i].uuid,
{
    let d = domain_of(s1);
    assert forall|i: int| 0 <= i < s2.len() implies (#[trigger] s2[i]).spn_ok(d) && s2[i].uuid
        == s1[i].uuid && s2[i].single(attr_domain_name()) == s1[i].single(attr_domain_name()) by {
        lemma_holders(s1[i]);
        if filter_selects(s1[i], spn_holders()) {
            lemma_purge_spn(s1[i]);
            lemma_regen(edited(s1[i], purge_spn()), d);
        }
    }
}

/// After a write that left the domain name as it was, every entry it
/// touched carries the right spn, and an entry it did not touch keeps its own.
proof fn lemma_plain_write(s: Seq<EntryView>, f: FilterView, ms: Seq<ModifyView>, s1: Seq<EntryView>)
    requires
        (ServerView { entries: s, next_id: 0 }).wf(),
        write_outcome(s, f, ms) == Ok::<Seq<EntryView>, ErrorKind>(s1),
        !domain_changed(s, s1, touched_of(s, f)),
    ensures
        domain_of(s1) == domain_of(s),
        forall|i: int|
            0 <= i < s.len() && filter_selects(s[i], f) ==> (#[trigger] s1[i]).spn_ok(domain_of(s)),
        forall|i: int| 0 <= i < s.len() && !filter_selects(s[i], f) ==> #[trigger] s1[i] == s[i],
{
    let d = domain_of(s);
    assert forall|i: int| 0 <= i < s.len() && filter_selects(s[i], f) implies (#[trigger] s1[i]).spn_ok(d)
        && s1[i].uuid == s[i].uuid by {
        lemma_mods_keep_uuid(s[i], ms);
        lemma_regen(edited(s[i], ms), d);
    }
    if filter_selects(s[0], f) {
        assert(touched_of(s, f)[0]);
        lemma_mods_keep_uuid(s[0], ms);
        lemma_regen(edited(s[0], ms), d);
    }
}

proof fn lemma_mods_keep_uuid(e: EntryView, ms: Seq<ModifyView>)
    ensures
        edited(e, ms).uuid == e.uuid,
        edited(e, ms).id == e.id,
{
    lemma_mods_keep(EntryView { origin: Origin::Existing, seal: Seal::Unsealed, ..e }, ms);
}

/// A successful modification of a consistent store leaves every account
/// and group with the spn derived from its name in the domain as committed.
pub proof fn lemma_modify_keeps_spns(s: ServerView, f: FilterView, ms: Seq<ModifyView>)
    requires
        s.wf(),
        s.consistent(),
        modify_outcome(s.entries, f, ms) is Ok,
    ensures
        (ServerView { entries: modify_outcome(s.entries, f, ms).unwrap(), ..s }).consistent(),
{
    let s1 = write_outcome(s.entries, f, ms).unwrap();
    if domain_changed(s.entries, s1, touched_of(s.entries, f)) {
        let s2 = modify_outcome(s.entries, f, ms).unwrap();
        lemma_cascade(s1, s2);
    } else {
        lemma_plain_write(s.entries, f, ms, s1);
    }
}

/// A modification that leaves an account or group without a single name
/// aborts with `InvalidEntryState`.
pub proof fn lemma_nameless_modify_aborts(
    s: ServerView,
    f: FilterView,
    ms: Seq<ModifyView>,
    i: int,
)
    requires
        0 <= i < s.entries.len(),
        filter_selects(s.entries[i], f),
        lacks_name(edited(s.entries[i], ms)),
    ensures
        modify_outcome(s.entries, f, ms) == Err::<Seq<EntryView>, ErrorKind>(
            ErrorKind::InvalidEntryState,
        ),
{
}

/// A creation that holds an account or group without a single name aborts
/// with `InvalidEntryState`, whatever identifiers were drawn.
pub proof fn lemma_nameless_create_aborts(
    s: ServerView,
    cs: Seq<EntryView>,
    fresh: Seq<u128>,
    i: int,
)
    requires
        0 <= i < cs.len(),
        fresh.len() == cs.len(),
        lacks_name(cs[i]),
    ensures
        create_outcome(s, cs, fresh) == Err::<ServerView, ErrorKind>(ErrorKind::InvalidEntryState),
{
    assert(filled_all(cs, fresh)[i] == filled(cs[i], fresh[i]));
    assert(filled(cs[i], fresh[i]).attrs == cs[i].attrs);
}

/// A successful creation stores every new account or group with the spn
/// derived from its name in the current domain, whatever spn it came with;
/// a consistent store stays consistent.
pub proof fn lemma_create_sets_spns(s: ServerView, cs: Seq<EntryView>, fresh: Seq<u128>)
    requires
        s.wf(),
        fresh.len() == cs.len(),
        create_outcome(s, cs, fresh) is Ok,
    ensures
        forall|i: int|
            0 <= i < cs.len() && (#[trigger] cs[i]).is_spn_target() ==> create_outcome(
                s,
                cs,
                fresh,
            ).unwrap().entries[s.entries.len() + i].vals(attr_spn()) == seq![
                spn_of(cs[i].single(attr_name()).unwrap(), s.domain()),
            ],
        s.consistent() ==> create_outcome(s, cs, fresh).unwrap().consistent(),
{
    let d = s.domain();
    let a = filled_all(cs, fresh);
    let c = derived_all(cs, fresh, d);
    let s2 = create_outcome(s, cs, fresh).unwrap();
    let m = s.entries.len();
    assert(s2.entries[0] == s.entries[0]);
    assert forall|i: int| 0 <= i < cs.len() implies (#[trigger] s2.entries[m + i]).spn_ok(d) && (
    cs[i].is_spn_target() ==> s2.entries[m + i].vals(attr_spn()) == seq![
        spn_of(cs[i].single(attr_name()).unwrap(), d),
    ]) by {
        assert(a[i] == filled(cs[i], fresh[i]));
        assert(c[i] == regen(a[i], d));
        assert(!lacks_name(a[i]));
        lemma_regen(a[i], d);
        if cs[i].is_spn_target() {
            lemma_with_attr(a[i], attr_spn(), seq![a[i].gen_spn(d).unwrap()]);
        }
    }
    if s.consistent() {
        assert forall|i: int| 0 <= i < s2.entries.len() implies (#[trigger] s2.entries[i]).spn_ok(
            s2.domain(),
        ) by {
            if i >= m {
                assert(s2.entries[m + (i - m)] == s2.entries[i]);
            }
        }
    }
}

/// Renaming the domain of a consistent store succeeds, and every account
/// and group then carries the spn derived from its name in the new domain.
pub proof fn lemma_rename_regenerates(s: ServerView, new_name: Seq<char>)
    requires
        s.wf(),
        s.consistent(),
    ensures
        modify_outcome(s.entries, FilterView::Uuid(UUID_DOMAIN_INFO), rename_mods(new_name)) is Ok,
        domain_of(
            modify_outcome(
                s.entries,
                FilterView::Uuid(UUID_DOMAIN_INFO),
                rename_mods(new_name),
            ).unwrap(),
        ) == new_name,
        (ServerView {
            entries: modify_outcome(
                s.entries,
                FilterView::Uuid(UUID_DOMAIN_INFO),
                rename_mods(new_name),
            ).unwrap(),
            ..s
        }).consistent(),
{
    let es = s.entries;
    let f = FilterView::Uuid(UUID_DOMAIN_INFO);
    let ms = rename_mods(new_name);
    let d = domain_of(es);
    assert forall|i: int| 0 <= i < es.len() && filter_selects(es[i], f) implies i == 0 by {
        if i != 0 {
            assert(es[0].uuid != es[i].uuid);
        }
    }
    lemma_rename_edit(es[0], new_name);
    lemma_regen(edited(es[0], ms), d);
    lemma_mods_keep_uuid(es[0], ms);
    assert(es[0].spn_ok(d));
    assert(!exists|i: int| 0 <= i < es.len() && filter_selects(es[i], f) && lacks_name(edited(es[i], ms)));
    assert(!exists|i: int|
        0 <= i < es.len() && filter_selects(es[i], f) && !regen(edited(es[i], ms), d).schema_valid());
    let s1 = write_outcome(es, f, ms).unwrap();
    assert(s1[0] == regen(edited(es[0], ms), d).sealed());
    assert(domain_of(s1) == new_name);
    assert forall|i: int| 0 < i < es.len() implies #[trigger] s1[i] == es[i] by {}
    if domain_changed(es, s1, touched_of(es, f)) {
        let hs = spn_holders();
        let pm = purge_spn();
        assert forall|i: int| 0 <= i < s1.len() && filter_selects(s1[i], hs) implies !lacks_name(
            edited(s1[i], pm),
        ) by {
            lemma_purge_spn(s1[i]);
            lemma_holders(s1[i]);
            if i > 0 {
                assert(es[i].spn_ok(d));
            }
        }
        assert forall|i: int| 0 <= i < s1.len() && filter_selects(s1[i], hs) implies regen(
            edited(s1[i], pm),
            domain_of(s1),
        ).schema_valid() by {
            lemma_purge_spn(s1[i]);
            lemma_regen(edited(s1[i], pm), domain_of(s1));
            if i > 0 {
                assert(es[0].uuid != es[i].uuid);
            }
        }
        let s2 = write_outcome(s1, hs, pm).unwrap();
        lemma_cascade(s1, s2);
    } else {
        assert(d == new_name) by {
            if d != new_name {
                assert(touched_of(es, f)[0]);
            }
        }
        lemma_plain_write(es, f, ms, s1);
    }
}

/// Renaming the domain of a consistent store to the name it already has
/// changes no entry.
pub proof fn lemma_rename_idempotent(s: ServerView, new_name: Seq<char>)
    requires
        s.wf(),
        s.consistent(),
        s.domain() == new_name,
    ensures
        modify_outcome(s.entries, FilterView::Uuid(UUID_DOMAIN_INFO), rename_mods(new_name))
            == Ok::<Seq<EntryView>, ErrorKind>(s.entries),
{
    let es = s.entries;
    let f = FilterView::Uuid(UUID_DOMAIN_INFO);
    let ms = rename_mods(new_name);
    let d = domain_of(es);
    assert forall|i: int| 0 <= i < es.len() && filter_selects(es[i], f) implies i == 0 by {
        if i != 0 {
            assert(es[0].uuid != es[i].uuid);
        }
    }
    assert(es[0].vals(attr_domain_name()) =~= seq![new_name]);
    lemma_rename_edit(es[0], new_name);
    let e0 = edited(es[0], ms);
    lemma_regen(e0, d);
    assert(es[0].spn_ok(d));
    assert(e0.spn_ok(d));
    if e0.is_spn_target() {
        assert(e0.vals(attr_spn()).len() > 0);
    }
    assert(!exists|i: int| 0 <= i < es.len() && filter_selects(es[i], f) && lacks_name(edited(es[i], ms)));
    let s1 = write_outcome(es, f, ms).unwrap();
    assert(s1[0] == es[0]);
    assert(s1 =~= es);
    assert(!domain_changed(es, s1, touched_of(es, f)));
}

/// A consistent store gives an empty report.
pub proof fn lemma_report_empty(es: Seq<EntryView>, d: Seq<char>)
    requires
        forall|i: int| 0 <= i < es.len() ==> (#[trigger] es[i]).spn_ok(d),
    ensures
        spn_report(es, d) == Seq::<ConsistencyError>::empty(),
    decreases es.len(),
{
    if es.len() > 0 {
        lemma_report_empty(es.drop_last(), d);
        assert(es.last().spn_ok(d));
    }
}

proof fn lemma_report_one(es: Seq<EntryView>, d: Seq<char>, j: int)
    requires
        0 <= j < es.len(),
        forall|i: int| 0 <= i < es.len() && i != j ==> (#[trigger] es[i]).spn_ok(d),
        !es[j].spn_ok(d),
    ensures
        spn_report(es, d) == seq![ConsistencyError::InvalidSpn(es[j].id)],
    decreases es.len(),
{
    if j == es.len() - 1 {
        lemma_report_empty(es.drop_last(), d);
        assert(Seq::<ConsistencyError>::empty() + seq![ConsistencyError::InvalidSpn(es[j].id)]
            =~= seq![ConsistencyError::InvalidSpn(es[j].id)]);
    } else {
        lemma_report_one(es.drop_last(), d, j);
        assert(es.last().spn_ok(d));
        assert(seq![ConsistencyError::InvalidSpn(es[j].id)] + Seq::<ConsistencyError>::empty()
            =~= seq![ConsistencyError::InvalidSpn(es[j].id)]);
    }
}

/// Where the spn of one account or group of a consistent store was written
/// past the plugins to anything else than its derived value, the report
/// names that entry alone.
pub proof fn lemma_report_single_fault(s: ServerView, j: int, forged: Seq<Seq<char>>)
    requires
        s.wf(),
        s.consistent(),
        0 <= j < s.entries.len(),
        s.entries[j].is_spn_target(),
        forged != s.entries[j].vals(attr_spn()),
    ensures
        spn_report(
            s.entries.update(j, s.entries[j].with_attr(attr_spn(), forged)),
            s.domain(),
        ) == seq![ConsistencyError::InvalidSpn(s.entries[j].id)],
        domain_of(s.entries.update(j, s.entries[j].with_attr(attr_spn(), forged))) == s.domain(),
{
    let t = s.entries.update(j, s.entries[j].with_attr(attr_spn(), forged));
    lemma_attr_names_distinct();
    lemma_with_attr(s.entries[j], attr_spn(), forged);
    assert(s.entries[j].spn_ok(s.domain()));
    assert(!t[j].spn_ok(s.domain()));
    assert forall|i: int| 0 <= i < t.len() && i != j implies (#[trigger] t[i]).spn_ok(s.domain()) by {
        assert(t[i] == s.entries[i]);
    }
    lemma_report_one(t, s.domain(), j);
}

} // verus!
