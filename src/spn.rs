use crate::entry::{
    attr_domain_name, attr_name, attr_spn, strings_view, Entry, EntryView, Seal, UUID_DOMAIN_INFO,
};
use crate::error::{ConsistencyError, ErrorKind};
use crate::server::{
    entries_view, modlist_view, purge_spn, spn_holders, write_outcome, Filter, Modify, Server,
    ServerView,
};
use vstd::prelude::*;

verus! {

/// An account or group without a single name: no spn can be derived.
pub open spec fn lacks_name(e: EntryView) -> bool {
    e.is_spn_target() && e.single(attr_name()) is None
}

/// `e` with its spn overwritten by the one derived in `domain`, where it is
/// an account or group.
pub open spec fn regen(e: EntryView, domain: Seq<char>) -> EntryView {
    if e.is_spn_target() && e.gen_spn(domain) is Some {
        e.with_attr(attr_spn(), seq![e.gen_spn(domain).unwrap()])
    } else {
        e
    }
}

/// What the verifier reports of `es` in `domain`: the storage id of each
/// entry whose spn is absent, several or wrong, in order.
pub open spec fn spn_report(es: Seq<EntryView>, domain: Seq<char>) -> Seq<ConsistencyError>
    decreases es.len(),
{
    if es.len() == 0 {
        seq![]
    } else {
        spn_report(es.drop_last(), domain) + if es.last().spn_ok(domain) {
            Seq::<ConsistencyError>::empty()
        } else {
            seq![ConsistencyError::InvalidSpn(es.last().id)]
        }
    }
}

/// Whether some touched entry is the domain-info entry with another domain
/// name after the write than before.
pub open spec fn domain_changed(
    pre: Seq<EntryView>,
    post: Seq<EntryView>,
    touched: Seq<bool>,
) -> bool {
    exists|i: int|
        0 <= i < touched.len() && #[trigger] touched[i] && post[i].uuid == Some(UUID_DOMAIN_INFO)
            && post[i].single(attr_domain_name()) != pre[i].single(attr_domain_name())
}

/// Derives the spn of accounts and groups from their name and the domain
/// name, regenerates every spn when the domain is renamed, and audits them.
pub struct Spn {}

impl Spn {
    pub fn id() -> (r: &'static str)
        ensures
            r@ == "plugin_spn"@,
    {
        "plugin_spn"
    }

    /// Overwrites the spn of `e`, if it is an account or group, with the one
    /// derived in `domain`.
    fn set_spn(domain: &String, e: &mut Entry) -> (r: Result<(), ErrorKind>)
        requires
            old(e)@.seal == Seal::Unsealed,
        ensures
            lacks_name(old(e)@) ==> r == Err::<(), ErrorKind>(ErrorKind::InvalidEntryState),
            !lacks_name(old(e)@) ==> r is Ok && final(e)@ == regen(old(e)@, domain@),
    {
        if e.attribute_present("class", "group") || e.attribute_present("class", "account") {
            match e.generate_spn(domain.as_str()) {
                Some(spn) => {
                    let vs = vec![spn];
                    assert(strings_view(vs@) =~= seq![old(e)@.gen_spn(domain@).unwrap()]);
                    e.set_values("spn", vs)
                },
                None => Err(ErrorKind::InvalidEntryState),
            }
        } else {
            Ok(())
        }
    }

    /// Sets the spn of every new account or group in `cand`; fails with
    /// `InvalidEntryState` where one has no single name.
    pub fn pre_create_transform(qs: &Server, cand: &mut Vec<Entry>) -> (r: Result<(), ErrorKind>)
        requires
            qs.wf(),
            forall|i: int| 0 <= i < old(cand)@.len() ==> (#[trigger] old(cand)@[i])@.seal
                == Seal::Unsealed,
        ensures
            (exists|i: int| 0 <= i < old(cand)@.len() && lacks_name(#[trigger] old(cand)@[i]@))
                ==> r == Err::<(), ErrorKind>(ErrorKind::InvalidEntryState),
            !(exists|i: int| 0 <= i < old(cand)@.len() && lacks_name(#[trigger] old(cand)@[i]@))
                ==> r is Ok && final(cand)@.len() == old(cand)@.len() && forall|i: int|
                0 <= i < old(cand)@.len() ==> (#[trigger] final(cand)@[i])@ == regen(
                old(cand)@[i]@,
                qs.domain(),
            ),
    {
        let touched = vec_of_true(cand.len());
        Self::pre_modify(qs, cand, &touched)
    }

    /// Sets the spn of every touched account or group in `cand`; fails with
    /// `InvalidEntryState` where one has no single name. The domain name is
    /// read once, and only where some candidate needs it.
    pub fn pre_modify(qs: &Server, cand: &mut Vec<Entry>, touched: &Vec<bool>) -> (r: Result<
        (),
        ErrorKind,
    >)
        requires
            qs.wf(),
            touched@.len() == old(cand)@.len(),
            forall|i: int|
                0 <= i < old(cand)@.len() && touched@[i] ==> (#[trigger] old(cand)@[i])@.seal
                    == Seal::Unsealed,
        ensures
            (exists|i: int|
                0 <= i < old(cand)@.len() && touched@[i] && lacks_name(#[trigger] old(cand)@[i]@))
                ==> r == Err::<(), ErrorKind>(ErrorKind::InvalidEntryState),
            !(exists|i: int|
                0 <= i < old(cand)@.len() && touched@[i] && lacks_name(#[trigger] old(cand)@[i]@))
                ==> r is Ok && final(cand)@.len() == old(cand)@.len() && forall|i: int|
                0 <= i < old(cand)@.len() ==> (#[trigger] final(cand)@[i])@ == if touched@[i] {
                regen(old(cand)@[i]@, qs.domain())
            } else {
                old(cand)@[i]@
            },
    {
        let mut domain_name: Option<String> = None;
        let n = cand.len();
        let mut i: usize = 0;
        while i < n
            invariant
                n == cand@.len() == old(cand)@.len() == touched@.len(),
                i <= n,
                qs.wf(),
                forall|j: int|
                    0 <= j < n && touched@[j] ==> (#[trigger] old(cand)@[j])@.seal == Seal::Unsealed,
                domain_name matches Some(d) ==> d@ == qs.domain(),
                forall|j: int|
                    0 <= j < i ==> !(touched@[j] && lacks_name(#[trigger] old(cand)@[j]@)),
                forall|j: int|
                    0 <= j < n ==> (#[trigger] cand@[j])@ == if j < i && touched@[j] {
                        regen(old(cand)@[j]@, qs.domain())
                    } else {
                        old(cand)@[j]@
                    },
            decreases n - i,
        {
            if touched[i] {
                if domain_name.is_none() {
                    domain_name = Some(qs.get_domain_name());
                }
                let d = match &domain_name {
                    Some(d) => d,
                    None => {
                        return Err(ErrorKind::InvalidEntryState);
                    },
                };
                let mut e = cand[i].duplicate();
                let res = Self::set_spn(d, &mut e);
                if res.is_err() {
                    return Err(ErrorKind::InvalidEntryState);
                }
                cand.set(i, e);
            }
            i += 1;
        }
        Ok(())
    }

    /// After a write: where it renamed the domain, purges the spn of every
    /// account and group in the same transaction, whose own pre-modify step
    /// then derives them anew in the new domain.
    pub fn post_modify(qs: &mut Server, pre: &Vec<Entry>, touched: &Vec<bool>) -> (r: Result<
        (),
        ErrorKind,
    >)
        requires
            old(qs).wf(),
            pre@.len() == touched@.len() == old(qs)@.entries.len(),
        ensures
            final(qs).wf(),
            !domain_changed(entries_view(pre@), old(qs)@.entries, touched@) ==> r is Ok
                && final(qs)@ == old(qs)@,
            domain_changed(entries_view(pre@), old(qs)@.entries, touched@) ==> match write_outcome(
                old(qs)@.entries,
                spn_holders(),
                purge_spn(),
            ) {
                Ok(s) => r is Ok && final(qs)@ == (ServerView { entries: s, ..old(qs)@ }),
                Err(k) => r == Err::<(), ErrorKind>(k) && final(qs)@ == old(qs)@,
            },
    {
        let n = touched.len();
        let mut i: usize = 0;
        let mut changed = false;
        while i < n && !changed
            invariant
                n == touched@.len() == pre@.len() == qs@.entries.len(),
                i <= n,
                changed ==> domain_changed(entries_view(pre@), qs@.entries, touched@),
                !changed ==> forall|j: int|
                    0 <= j < i ==> !(#[trigger] touched@[j] && qs@.entries[j].uuid == Some(
                        UUID_DOMAIN_INFO,
                    ) && qs@.entries[j].single(attr_domain_name()) != pre@[j]@.single(
                        attr_domain_name(),
                    )),
            decreases n - i + if changed { 0int } else { 1int },
        {
            if touched[i] {
                let post = qs.entry_at(i);
                if post.get_uuid() == Some(UUID_DOMAIN_INFO) {
                    let now = post.get_single("domain_name");
                    let before = pre[i].get_single("domain_name");
                    let same = match (&now, &before) {
                        (Some(a), Some(b)) => *a == *b,
                        (None, None) => true,
                        _ => false,
                    };
                    if !same {
                        changed = true;
                        assert(entries_view(pre@)[i as int] == pre@[i as int]@);
                    }
                }
            }
            if !changed {
                i += 1;
            }
        }
        if !changed {
            return Ok(());
        }
        let filter = Filter::spn_holders();
        let mods = vec![Modify::Purge("spn".to_owned())];
        assert(modlist_view(mods@) =~= purge_spn());
        match qs.write(&filter, &mods) {
            Ok(_) => Ok(()),
            Err(e) => Err(e),
        }
    }

    /// Recomputes the spn of every account and group and reports each entry
    /// whose stored spn differs; never changes the store.
    pub fn verify(qs: &Server) -> (r: Vec<ConsistencyError>)
        requires
            qs.wf(),
        ensures
            r@ == spn_report(qs@.entries, qs.domain()),
    {
        let domain = qs.get_domain_name();
        let n = qs.len();
        let mut r: Vec<ConsistencyError> = Vec::new();
        let mut i: usize = 0;
        while i < n
            invariant
                n == qs@.entries.len(),
                i <= n,
                domain@ == qs.domain(),
                r@ == spn_report(qs@.entries.subrange(0, i as int), qs.domain()),
            decreases n - i,
        {
            let e = qs.entry_at(i);
            let ok = if e.attribute_present("class", "group") || e.attribute_present(
                "class",
                "account",
            ) {
                match e.generate_spn(domain.as_str()) {
                    Some(g) => {
                        let vs = e.get_values("spn");
                        if vs.len() == 1 {
                            let same = vs[0] == g;
                            proof {
                                if same {
                                    assert(strings_view(vs@) =~= seq![g@]);
                                } else {
                                    assert(strings_view(vs@)[0] != g@);
                                }
                            }
                            same
                        } else {
                            assert(strings_view(vs@).len() != 1);
                            false
                        }
                    },
                    None => false,
                }
            } else {
                true
            };
            let ghost pre = qs@.entries.subrange(0, i as int);
            if !ok {
                r.push(ConsistencyError::InvalidSpn(e.get_id()));
            }
            i += 1;
            assert(qs@.entries.subrange(0, i as int).drop_last() =~= pre);
        }
        assert(qs@.entries.subrange(0, n as int) =~= qs@.entries);
        r
    }
}

fn vec_of_true(n: usize) -> (r: Vec<bool>)
    ensures
        r@.len() == n,
        forall|i: int| 0 <= i < n ==> r@[i],
{
    let mut r: Vec<bool> = Vec::new();
    while r.len() < n
        invariant
            r@.len() <= n,
            forall|i: int| 0 <= i < r@.len() ==> r@[i],
        decreases n - r@.len(),
    {
        r.push(true);
    }
    r
}

} // verus!
