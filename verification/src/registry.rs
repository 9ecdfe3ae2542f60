//! A model of the daemon's registration store. The store is partitioned
//! by ownership key: every entry and icon is attributed to one owner, and
//! a synchronization pass first retracts the owner's prior state and then
//! pushes its new state, so the owner's slice after a completed pass never
//! depends on what the daemon held before.

use vstd::prelude::*;
use vstd::string::*;

verus! {

/// One call against the registration store.
pub enum RegistryCall {
    /// Drop every entry and icon attributed to `owner`.
    Retract { owner: String },
    /// Register descriptor text under `owner`.
    Entry { appid: String, text: String, owner: String },
    /// Register icon data under `owner`; the payload names the asset the
    /// data is read from.
    Icon { icon_name: String, payload: String, owner: String },
}

/// The mathematical shape of a registry call.
pub enum RegCall {
    Retract { owner: Seq<char> },
    Entry { appid: Seq<char>, text: Seq<char>, owner: Seq<char> },
    Icon { icon_name: Seq<char>, payload: Seq<char>, owner: Seq<char> },
}

impl View for RegistryCall {
    type V = RegCall;

    open spec fn view(&self) -> RegCall {
        match self {
            RegistryCall::Retract { owner } => RegCall::Retract { owner: owner@ },
            RegistryCall::Entry { appid, text, owner } => RegCall::Entry {
                appid: appid@,
                text: text@,
                owner: owner@,
            },
            RegistryCall::Icon { icon_name, payload, owner } => RegCall::Icon {
                icon_name: icon_name@,
                payload: payload@,
                owner: owner@,
            },
        }
    }
}

/// The store: maps from `(owner, key)` pairs to the pushed data.
pub struct RegistryState {
    pub entries: Map<(Seq<char>, Seq<char>), Seq<char>>,
    pub icons: Map<(Seq<char>, Seq<char>), Seq<char>>,
}

pub open spec fn empty_state() -> RegistryState {
    RegistryState { entries: Map::empty(), icons: Map::empty() }
}

/// Remove every key attributed to `owner`.
pub open spec fn strip_owner(
    m: Map<(Seq<char>, Seq<char>), Seq<char>>,
    owner: Seq<char>,
) -> Map<(Seq<char>, Seq<char>), Seq<char>> {
    Map::new(|k: (Seq<char>, Seq<char>)| m.dom().contains(k) && k.0 != owner, |k: (Seq<char>, Seq<char>)| m[k])
}

/// Restrict to the keys attributed to `owner`.
pub open spec fn owner_slice(
    m: Map<(Seq<char>, Seq<char>), Seq<char>>,
    owner: Seq<char>,
) -> Map<(Seq<char>, Seq<char>), Seq<char>> {
    Map::new(|k: (Seq<char>, Seq<char>)| m.dom().contains(k) && k.0 == owner, |k: (Seq<char>, Seq<char>)| m[k])
}

/// Effect of one call on the store.
pub open spec fn apply_call(s: RegistryState, c: RegCall) -> RegistryState {
    match c {
        RegCall::Retract { owner } => RegistryState {
            entries: strip_owner(s.entries, owner),
            icons: strip_owner(s.icons, owner),
        },
        RegCall::Entry { appid, text, owner } => RegistryState {
            entries: s.entries.insert((owner, appid), text),
            icons: s.icons,
        },
        RegCall::Icon { icon_name, payload, owner } => RegistryState {
            entries: s.entries,
            icons: s.icons.insert((owner, icon_name), payload),
        },
    }
}

/// Effect of a call sequence, first call first.
pub open spec fn apply_calls(s: RegistryState, calls: Seq<RegCall>) -> RegistryState
    decreases calls.len(),
{
    if calls.len() == 0 {
        s
    } else {
        apply_calls(apply_call(s, calls[0]), calls.drop_first())
    }
}

/// Whether a call is attributed to `owner`.
pub open spec fn call_owned_by(c: RegCall, owner: Seq<char>) -> bool {
    match c {
        RegCall::Retract { owner: o } => o == owner,
        RegCall::Entry { owner: o, .. } => o == owner,
        RegCall::Icon { owner: o, .. } => o == owner,
    }
}

/// The shape every completed pass's publishing calls have: a retraction
/// of the owner first, then only registrations under that owner.
pub open spec fn pass_shaped(calls: Seq<RegCall>, owner: Seq<char>) -> bool {
    &&& calls.len() >= 1
    &&& calls[0] == (RegCall::Retract { owner })
    &&& forall|i: int|
        1 <= i < calls.len() ==> call_owned_by(#[trigger] calls[i], owner) && !(calls[i]
            is Retract)
}

/// Calls owned by one owner keep equal owner slices equal.
proof fn lemma_same_owner_slices_stay_equal(
    a: RegistryState,
    b: RegistryState,
    calls: Seq<RegCall>,
    owner: Seq<char>,
)
    requires
        owner_slice(a.entries, owner) == owner_slice(b.entries, owner),
        owner_slice(a.icons, owner) == owner_slice(b.icons, owner),
        forall|i: int| 0 <= i < calls.len() ==> call_owned_by(#[trigger] calls[i], owner),
    ensures
        owner_slice(apply_calls(a, calls).entries, owner) == owner_slice(
            apply_calls(b, calls).entries,
            owner,
        ),
        owner_slice(apply_calls(a, calls).icons, owner) == owner_slice(
            apply_calls(b, calls).icons,
            owner,
        ),
    decreases calls.len(),
{
    if calls.len() == 0 {
    } else {
        let c = calls[0];
        let a2 = apply_call(a, c);
        let b2 = apply_call(b, c);
        lemma_apply_owned_keeps_slices(a, b, c, owner);
        lemma_same_owner_slices_stay_equal(a2, b2, calls.drop_first(), owner);
    }
}

/// One owned call keeps equal owner slices equal.
proof fn lemma_apply_owned_keeps_slices(
    a: RegistryState,
    b: RegistryState,
    c: RegCall,
    owner: Seq<char>,
)
    requires
        owner_slice(a.entries, owner) == owner_slice(b.entries, owner),
        owner_slice(a.icons, owner) == owner_slice(b.icons, owner),
        call_owned_by(c, owner),
    ensures
        owner_slice(apply_call(a, c).entries, owner) == owner_slice(apply_call(b, c).entries, owner),
        owner_slice(apply_call(a, c).icons, owner) == owner_slice(apply_call(b, c).icons, owner),
{
    let ae = owner_slice(a.entries, owner);
    let be = owner_slice(b.entries, owner);
    let ai = owner_slice(a.icons, owner);
    let bi = owner_slice(b.icons, owner);
    match c {
        RegCall::Retract { owner: o } => {
            assert(owner_slice(strip_owner(a.entries, o), owner) =~= owner_slice(
                strip_owner(b.entries, o),
                owner,
            ));
            assert(owner_slice(strip_owner(a.icons, o), owner) =~= owner_slice(
                strip_owner(b.icons, o),
                owner,
            ));
        },
        RegCall::Entry { appid, text, owner: o } => {
            let k = (o, appid);
            assert forall|q: (Seq<char>, Seq<char>)|
                owner_slice(a.entries.insert(k, text), owner).dom().contains(q)
                    == owner_slice(b.entries.insert(k, text), owner).dom().contains(q) by {
                if q != k && q.0 == owner {
                    assert(ae.dom().contains(q) == be.dom().contains(q));
                }
            }
            assert forall|q: (Seq<char>, Seq<char>)|
                owner_slice(a.entries.insert(k, text), owner).dom().contains(q) implies owner_slice(
                a.entries.insert(k, text),
                owner,
            )[q] == owner_slice(b.entries.insert(k, text), owner)[q] by {
                if q != k {
                    assert(ae.dom().contains(q));
                    assert(ae[q] == be[q]);
                }
            }
            assert(owner_slice(a.entries.insert(k, text), owner) =~= owner_slice(
                b.entries.insert(k, text),
                owner,
            ));
            assert(owner_slice(apply_call(a, c).icons, owner) =~= owner_slice(
                apply_call(b, c).icons,
                owner,
            ));
        },
        RegCall::Icon { icon_name, payload, owner: o } => {
            let k = (o, icon_name);
            assert forall|q: (Seq<char>, Seq<char>)|
                owner_slice(a.icons.insert(k, payload), owner).dom().contains(q)
                    == owner_slice(b.icons.insert(k, payload), owner).dom().contains(q) by {
                if q != k && q.0 == owner {
                    assert(ai.dom().contains(q) == bi.dom().contains(q));
                }
            }
            assert forall|q: (Seq<char>, Seq<char>)|
                owner_slice(a.icons.insert(k, payload), owner).dom().contains(q) implies owner_slice(
                a.icons.insert(k, payload),
                owner,
            )[q] == owner_slice(b.icons.insert(k, payload), owner)[q] by {
                if q != k {
                    assert(ai.dom().contains(q));
                    assert(ai[q] == bi[q]);
                }
            }
            assert(owner_slice(a.icons.insert(k, payload), owner) =~= owner_slice(
                b.icons.insert(k, payload),
                owner,
            ));
            assert(owner_slice(apply_call(a, c).entries, owner) =~= owner_slice(
                apply_call(b, c).entries,
                owner,
            ));
        },
    }
}

/// After a completed pass, the owner's slice of the store depends only on
/// the pass's calls, never on the prior state: the pass replaces the
/// owner's published snapshot.
pub proof fn lemma_pass_replaces_owner_state(
    s1: RegistryState,
    s2: RegistryState,
    calls: Seq<RegCall>,
    owner: Seq<char>,
)
    requires
        pass_shaped(calls, owner),
    ensures
        owner_slice(apply_calls(s1, calls).entries, owner) == owner_slice(
            apply_calls(s2, calls).entries,
            owner,
        ),
        owner_slice(apply_calls(s1, calls).icons, owner) == owner_slice(
            apply_calls(s2, calls).icons,
            owner,
        ),
{
    let a2 = apply_call(s1, calls[0]);
    let b2 = apply_call(s2, calls[0]);
    assert(owner_slice(a2.entries, owner) =~= owner_slice(b2.entries, owner));
    assert(owner_slice(a2.icons, owner) =~= owner_slice(b2.icons, owner));
    assert(forall|i: int|
        0 <= i < calls.drop_first().len() ==> call_owned_by(
            #[trigger] calls.drop_first()[i],
            owner,
        ));
    lemma_same_owner_slices_stay_equal(a2, b2, calls.drop_first(), owner);
}

/// Re-running a full pass: after two passes for the same owner, the
/// owner's slice equals exactly what the second pass alone would publish
/// — nothing of the first pass survives.
pub proof fn lemma_rerun_is_replacement(
    s: RegistryState,
    first_pass: Seq<RegCall>,
    second_pass: Seq<RegCall>,
    owner: Seq<char>,
)
    requires
        pass_shaped(first_pass, owner),
        pass_shaped(second_pass, owner),
    ensures
        owner_slice(
            apply_calls(apply_calls(s, first_pass), second_pass).entries,
            owner,
        ) == owner_slice(apply_calls(empty_state(), second_pass).entries, owner),
        owner_slice(apply_calls(apply_calls(s, first_pass), second_pass).icons, owner)
            == owner_slice(apply_calls(empty_state(), second_pass).icons, owner),
{
    lemma_pass_replaces_owner_state(
        apply_calls(s, first_pass),
        empty_state(),
        second_pass,
        owner,
    );
}

/// A record of the store's entry table.
pub struct EntryRecord {
    pub owner: String,
    pub appid: String,
    pub text: String,
}

/// A record of the store's icon table.
pub struct IconRecord {
    pub owner: String,
    pub icon_name: String,
    pub payload: String,
}

/// Entry table as a map; a later record overrides an earlier one.
pub open spec fn entries_map(v: Seq<EntryRecord>) -> Map<(Seq<char>, Seq<char>), Seq<char>>
    decreases v.len(),
{
    if v.len() == 0 {
        Map::empty()
    } else {
        entries_map(v.drop_last()).insert((v.last().owner@, v.last().appid@), v.last().text@)
    }
}

/// Icon table as a map; a later record overrides an earlier one.
pub open spec fn icons_map(v: Seq<IconRecord>) -> Map<(Seq<char>, Seq<char>), Seq<char>>
    decreases v.len(),
{
    if v.len() == 0 {
        Map::empty()
    } else {
        icons_map(v.drop_last()).insert((v.last().owner@, v.last().icon_name@), v.last().payload@)
    }
}

/// An executable model of the daemon's store, for driving the pipeline
/// end to end.
pub struct DaemonModel {
    pub entries: Vec<EntryRecord>,
    pub icons: Vec<IconRecord>,
}

impl View for DaemonModel {
    type V = RegistryState;

    open spec fn view(&self) -> RegistryState {
        RegistryState { entries: entries_map(self.entries@), icons: icons_map(self.icons@) }
    }
}

/// Records not owned by `owner`, in order.
pub open spec fn keep_entries(v: Seq<EntryRecord>, owner: Seq<char>) -> Seq<EntryRecord>
    decreases v.len(),
{
    if v.len() == 0 {
        Seq::empty()
    } else if v.last().owner@ == owner {
        keep_entries(v.drop_last(), owner)
    } else {
        keep_entries(v.drop_last(), owner).push(v.last())
    }
}

pub open spec fn keep_icons(v: Seq<IconRecord>, owner: Seq<char>) -> Seq<IconRecord>
    decreases v.len(),
{
    if v.len() == 0 {
        Seq::empty()
    } else if v.last().owner@ == owner {
        keep_icons(v.drop_last(), owner)
    } else {
        keep_icons(v.drop_last(), owner).push(v.last())
    }
}

/// Dropping an owner's records from the table strips the owner from the
/// map.
proof fn lemma_keep_entries_strips(v: Seq<EntryRecord>, owner: Seq<char>)
    ensures
        entries_map(keep_entries(v, owner)) == strip_owner(entries_map(v), owner),
    decreases v.len(),
{
    if v.len() == 0 {
        assert(entries_map(keep_entries(v, owner)) =~= strip_owner(entries_map(v), owner));
    } else {
        lemma_keep_entries_strips(v.drop_last(), owner);
        let r = v.last();
        let k = (r.owner@, r.appid@);
        if r.owner@ == owner {
            assert(entries_map(keep_entries(v, owner)) =~= strip_owner(entries_map(v), owner));
        } else {
            let kept = keep_entries(v.drop_last(), owner).push(r);
            assert(kept.drop_last() =~= keep_entries(v.drop_last(), owner));
            assert(kept.last() == r);
            assert(entries_map(kept) =~= strip_owner(entries_map(v), owner));
        }
    }
}

proof fn lemma_keep_icons_strips(v: Seq<IconRecord>, owner: Seq<char>)
    ensures
        icons_map(keep_icons(v, owner)) == strip_owner(icons_map(v), owner),
    decreases v.len(),
{
    if v.len() == 0 {
        assert(icons_map(keep_icons(v, owner)) =~= strip_owner(icons_map(v), owner));
    } else {
        lemma_keep_icons_strips(v.drop_last(), owner);
        let r = v.last();
        if r.owner@ == owner {
            assert(icons_map(keep_icons(v, owner)) =~= strip_owner(icons_map(v), owner));
        } else {
            let kept = keep_icons(v.drop_last(), owner).push(r);
            assert(kept.drop_last() =~= keep_icons(v.drop_last(), owner));
            assert(kept.last() == r);
            assert(icons_map(kept) =~= strip_owner(icons_map(v), owner));
        }
    }
}

impl DaemonModel {
    /// A store holding nothing.
    pub fn new() -> (r: DaemonModel)
        ensures
            r@ == empty_state(),
    {
        let r = DaemonModel { entries: Vec::new(), icons: Vec::new() };
        proof {
            assert(r@.entries =~= empty_state().entries);
            assert(r@.icons =~= empty_state().icons);
        }
        r
    }

    /// Apply one registry call to the store.
    pub fn apply(&mut self, call: &RegistryCall)
        ensures
            final(self)@ == apply_call(old(self)@, call@),
    {
        match call {
            RegistryCall::Retract { owner } => {
                let mut kept_entries: Vec<EntryRecord> = Vec::new();
                let mut i: usize = 0;
                let n = self.entries.len();
                proof {
                    assert(self.entries@.subrange(0, 0) =~= Seq::<EntryRecord>::empty());
                    assert(kept_entries@ =~= keep_entries(self.entries@.subrange(0, 0), owner@));
                }
                while i < n
                    invariant
                        n == self.entries@.len(),
                        0 <= i <= n,
                        kept_entries@ == keep_entries(self.entries@.subrange(0, i as int), owner@),
                    decreases n - i,
                {
                    proof {
                        assert(self.entries@.subrange(0, i + 1 as int).drop_last()
                            =~= self.entries@.subrange(0, i as int));
                        assert(self.entries@.subrange(0, i + 1 as int).last()
                            == self.entries@[i as int]);
                    }
                    if !crate::text::eq_str(self.entries[i].owner.as_str(), owner.as_str()) {
                        let rec = EntryRecord {
                            owner: self.entries[i].owner.clone(),
                            appid: self.entries[i].appid.clone(),
                            text: self.entries[i].text.clone(),
                        };
                        proof {
                            assert(rec == self.entries@[i as int]);
                        }
                        kept_entries.push(rec);
                    }
                    i += 1;
                }
                proof {
                    assert(self.entries@.subrange(0, n as int) =~= self.entries@);
                    lemma_keep_entries_strips(self.entries@, owner@);
                }
                let mut kept_icons: Vec<IconRecord> = Vec::new();
                let mut j: usize = 0;
                let m = self.icons.len();
                proof {
                    assert(self.icons@.subrange(0, 0) =~= Seq::<IconRecord>::empty());
                    assert(kept_icons@ =~= keep_icons(self.icons@.subrange(0, 0), owner@));
                }
                while j < m
                    invariant
                        m == self.icons@.len(),
                        0 <= j <= m,
                        kept_icons@ == keep_icons(self.icons@.subrange(0, j as int), owner@),
                    decreases m - j,
                {
                    proof {
                        assert(self.icons@.subrange(0, j + 1 as int).drop_last()
                            =~= self.icons@.subrange(0, j as int));
                        assert(self.icons@.subrange(0, j + 1 as int).last()
                            == self.icons@[j as int]);
                    }
                    if !crate::text::eq_str(self.icons[j].owner.as_str(), owner.as_str()) {
                        let rec = IconRecord {
                            owner: self.icons[j].owner.clone(),
                            icon_name: self.icons[j].icon_name.clone(),
                            payload: self.icons[j].payload.clone(),
                        };
                        proof {
                            assert(rec == self.icons@[j as int]);
                        }
                        kept_icons.push(rec);
                    }
                    j += 1;
                }
                proof {
                    assert(self.icons@.subrange(0, m as int) =~= self.icons@);
                    lemma_keep_icons_strips(self.icons@, owner@);
                }
                self.entries = kept_entries;
                self.icons = kept_icons;
            },
            RegistryCall::Entry { appid, text, owner } => {
                let rec = EntryRecord {
                    owner: owner.clone(),
                    appid: appid.clone(),
                    text: text.clone(),
                };
                proof {
                    assert(self.entries@.push(rec).drop_last() =~= self.entries@);
                }
                self.entries.push(rec);
            },
            RegistryCall::Icon { icon_name, payload, owner } => {
                let rec = IconRecord {
                    owner: owner.clone(),
                    icon_name: icon_name.clone(),
                    payload: payload.clone(),
                };
                proof {
                    assert(self.icons@.push(rec).drop_last() =~= self.icons@);
                }
                self.icons.push(rec);
            },
        }
    }

    /// The text registered for `(owner, appid)`, if any.
    pub fn entry_text(&self, owner: &str, appid: &str) -> (r: Option<String>)
        ensures
            match r {
                Some(t) => self@.entries.contains_pair((owner@, appid@), t@),
                None => !self@.entries.dom().contains((owner@, appid@)),
            },
    {
        let n = self.entries.len();
        let mut j: usize = n;
        while j > 0
            invariant
                n == self.entries@.len(),
                0 <= j <= n,
                !entries_map_upto(self.entries@, j as int, (owner@, appid@)),
            decreases j,
        {
            j -= 1;
            let rec = &self.entries[j];
            if crate::text::eq_str(rec.owner.as_str(), owner) && crate::text::eq_str(
                rec.appid.as_str(),
                appid,
            ) {
                proof {
                    lemma_entries_lookup_at(self.entries@, (owner@, appid@), j as int);
                }
                return Some(rec.text.clone());
            }
        }
        proof {
            lemma_entries_lookup_absent(self.entries@, (owner@, appid@));
        }
        None
    }

    /// The payload registered for `(owner, icon_name)`, if any.
    pub fn icon_payload(&self, owner: &str, icon_name: &str) -> (r: Option<String>)
        ensures
            match r {
                Some(t) => self@.icons.contains_pair((owner@, icon_name@), t@),
                None => !self@.icons.dom().contains((owner@, icon_name@)),
            },
    {
        let n = self.icons.len();
        let mut j: usize = n;
        while j > 0
            invariant
                n == self.icons@.len(),
                0 <= j <= n,
                forall|q: int|
                    j <= q < n ==> ((#[trigger] self.icons@[q].owner@, self.icons@[q].icon_name@)
                        != (owner@, icon_name@)),
            decreases j,
        {
            j -= 1;
            let rec = &self.icons[j];
            if crate::text::eq_str(rec.owner.as_str(), owner) && crate::text::eq_str(
                rec.icon_name.as_str(),
                icon_name,
            ) {
                proof {
                    lemma_icons_lookup_at(self.icons@, (owner@, icon_name@), j as int);
                }
                return Some(rec.payload.clone());
            }
        }
        proof {
            lemma_icons_lookup_absent(self.icons@, (owner@, icon_name@));
        }
        None
    }
}

/// Is the key written by some record at an index `>= j`?
pub open spec fn entries_map_upto(v: Seq<EntryRecord>, j: int, k: (Seq<char>, Seq<char>)) -> bool {
    exists|q: int| j <= q < v.len() && ((#[trigger] v[q].owner@, v[q].appid@) == k)
}

/// A record whose key no later record repeats gives the map's value.
proof fn lemma_entries_lookup_at(v: Seq<EntryRecord>, k: (Seq<char>, Seq<char>), j: int)
    requires
        0 <= j < v.len(),
        (v[j].owner@, v[j].appid@) == k,
        forall|q: int| j < q < v.len() ==> ((#[trigger] v[q].owner@, v[q].appid@) != k),
    ensures
        entries_map(v).contains_pair(k, v[j].text@),
    decreases v.len(),
{
    if j == v.len() - 1 {
        assert(v.last() == v[j]);
    } else {
        assert(v.drop_last()[j] == v[j]);
        lemma_entries_lookup_at(v.drop_last(), k, j);
        assert((v.last().owner@, v.last().appid@) != k);
    }
}

/// A key no record writes is absent from the map.
proof fn lemma_entries_lookup_absent(v: Seq<EntryRecord>, k: (Seq<char>, Seq<char>))
    requires
        forall|q: int| 0 <= q < v.len() ==> ((#[trigger] v[q].owner@, v[q].appid@) != k),
    ensures
        !entries_map(v).dom().contains(k),
    decreases v.len(),
{
    if v.len() > 0 {
        assert(forall|q: int|
            0 <= q < v.drop_last().len() ==> v.drop_last()[q] == #[trigger] v[q]);
        lemma_entries_lookup_absent(v.drop_last(), k);
        assert((v.last().owner@, v.last().appid@) != k);
    }
}

proof fn lemma_icons_lookup_at(v: Seq<IconRecord>, k: (Seq<char>, Seq<char>), j: int)
    requires
        0 <= j < v.len(),
        (v[j].owner@, v[j].icon_name@) == k,
        forall|q: int| j < q < v.len() ==> ((#[trigger] v[q].owner@, v[q].icon_name@) != k),
    ensures
        icons_map(v).contains_pair(k, v[j].payload@),
    decreases v.len(),
{
    if j == v.len() - 1 {
        assert(v.last() == v[j]);
    } else {
        assert(v.drop_last()[j] == v[j]);
        lemma_icons_lookup_at(v.drop_last(), k, j);
        assert((v.last().owner@, v.last().icon_name@) != k);
    }
}

proof fn lemma_icons_lookup_absent(v: Seq<IconRecord>, k: (Seq<char>, Seq<char>))
    requires
        forall|q: int| 0 <= q < v.len() ==> ((#[trigger] v[q].owner@, v[q].icon_name@) != k),
    ensures
        !icons_map(v).dom().contains(k),
    decreases v.len(),
{
    if v.len() > 0 {
        assert(forall|q: int|
            0 <= q < v.drop_last().len() ==> v.drop_last()[q] == #[trigger] v[q]);
        lemma_icons_lookup_absent(v.drop_last(), k);
        assert((v.last().owner@, v.last().icon_name@) != k);
    }
}

} // verus!
