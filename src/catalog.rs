use vstd::prelude::*;
use crate::error::CoreError;

verus! {

/// A bot as one backend lists it.
pub struct RemoteBot {
    pub id: String,
    pub name: String,
}

/// A bot of the merged catalog, with the index of the client that serves it.
pub struct BotDescriptor {
    pub id: String,
    pub name: String,
    pub provider: usize,
}

/// What one client's discovery gave: its bots, or `None` where it failed.
pub type Listing = Option<Vec<RemoteBot>>;

pub open spec fn descriptor(b: RemoteBot, k: usize) -> BotDescriptor {
    BotDescriptor { id: b.id, name: b.name, provider: k }
}

pub open spec fn has_id(cat: Seq<BotDescriptor>, id: Seq<char>) -> bool {
    exists|i: int| 0 <= i < cat.len() && #[trigger] cat[i].id@ == id
}

pub open spec fn lists_id(bots: Seq<RemoteBot>, id: Seq<char>) -> bool {
    exists|j: int| 0 <= j < bots.len() && #[trigger] bots[j].id@ == id
}

pub open spec fn unique_ids(cat: Seq<BotDescriptor>) -> bool {
    forall|i: int, j: int|
        0 <= i < j < cat.len() ==> (#[trigger] cat[i]).id@ != (#[trigger] cat[j]).id@
}

/// The index of the entry with this id, for a catalog that has one.
pub open spec fn index_of(cat: Seq<BotDescriptor>, id: Seq<char>) -> int {
    choose|i: int| 0 <= i < cat.len() && #[trigger] cat[i].id@ == id
}

/// Puts a descriptor into a catalog: it replaces the entry with its id, or
/// goes at the end.
pub open spec fn place(cat: Seq<BotDescriptor>, d: BotDescriptor) -> Seq<BotDescriptor> {
    if has_id(cat, d.id@) {
        cat.update(index_of(cat, d.id@), d)
    } else {
        cat.push(d)
    }
}

/// Places each bot of one client's listing, in the listing's order.
pub open spec fn absorb(cat: Seq<BotDescriptor>, bots: Seq<RemoteBot>, k: usize) -> Seq<
    BotDescriptor,
>
    decreases bots.len(),
{
    if bots.len() == 0 {
        cat
    } else {
        place(absorb(cat, bots.drop_last(), k), descriptor(bots.last(), k))
    }
}

/// The catalog of a discovery pass: the listings absorbed in the order in
/// which their clients were registered; a failed listing adds nothing.
pub open spec fn merged(ls: Seq<Listing>) -> Seq<BotDescriptor>
    decreases ls.len(),
{
    if ls.len() == 0 {
        Seq::empty()
    } else {
        let before = merged(ls.drop_last());
        match ls.last() {
            Some(bots) => absorb(before, bots@, (ls.len() - 1) as usize),
            None => before,
        }
    }
}

/// Whether client `k` answered and listed a bot with this id.
pub open spec fn listed_by(ls: Seq<Listing>, k: int, id: Seq<char>) -> bool {
    0 <= k < ls.len() && ls[k] is Some && lists_id(ls[k]->0@, id)
}

/// The last registered client that listed this id, or -1 where none did.
pub open spec fn owner(ls: Seq<Listing>, id: Seq<char>) -> int
    decreases ls.len(),
{
    if ls.len() == 0 {
        -1
    } else if listed_by(ls, ls.len() - 1, id) {
        ls.len() - 1
    } else {
        owner(ls.drop_last(), id)
    }
}

/// Where a catalog sends a turn for this bot id.
pub open spec fn route_of(cat: Seq<BotDescriptor>, id: Seq<char>) -> Result<usize, CoreError> {
    if has_id(cat, id) {
        Ok(cat[index_of(cat, id)].provider)
    } else {
        Err(CoreError::UnknownBot)
    }
}

pub proof fn lemma_place(cat: Seq<BotDescriptor>, d: BotDescriptor)
    requires
        unique_ids(cat),
    ensures
        unique_ids(place(cat, d)),
        forall|id: Seq<char>| #[trigger]
            has_id(place(cat, d), id) <==> (has_id(cat, id) || d.id@ == id),
        forall|i: int|
            0 <= i < place(cat, d).len() ==> (#[trigger] place(cat, d)[i] == d || (
            place(cat, d)[i].id@ != d.id@ && exists|i2: int|
                0 <= i2 < cat.len() && #[trigger] cat[i2] == place(cat, d)[i])),
{
    let r = place(cat, d);
    if has_id(cat, d.id@) {
        let x = index_of(cat, d.id@);
        assert forall|i: int| 0 <= i < r.len() implies (#[trigger] r[i] == d || (r[i].id@ != d.id@
            && exists|i2: int| 0 <= i2 < cat.len() && #[trigger] cat[i2] == r[i])) by {
            if i != x {
                assert(cat[i] == r[i]);
                if cat[i].id@ == d.id@ {
                    if i < x {
                        assert(cat[i].id@ != cat[x].id@);
                    } else {
                        assert(cat[x].id@ != cat[i].id@);
                    }
                }
            }
        }
        assert forall|id: Seq<char>| #[trigger]
            has_id(r, id) <==> (has_id(cat, id) || d.id@ == id) by {
            if has_id(cat, id) {
                let i = choose|i: int| 0 <= i < cat.len() && #[trigger] cat[i].id@ == id;
                if i != x {
                    assert(r[i].id@ == id);
                } else {
                    assert(r[x].id@ == id);
                }
            }
            if d.id@ == id {
                assert(r[x].id@ == id);
            }
            if has_id(r, id) {
                let i = choose|i: int| 0 <= i < r.len() && #[trigger] r[i].id@ == id;
                if i != x {
                    assert(cat[i].id@ == id);
                }
            }
        }
    } else {
        assert forall|i: int| 0 <= i < r.len() implies (#[trigger] r[i] == d || (r[i].id@ != d.id@
            && exists|i2: int| 0 <= i2 < cat.len() && #[trigger] cat[i2] == r[i])) by {
            if i < cat.len() {
                assert(cat[i] == r[i]);
            }
        }
        assert forall|id: Seq<char>| #[trigger]
            has_id(r, id) <==> (has_id(cat, id) || d.id@ == id) by {
            if has_id(cat, id) {
                let i = choose|i: int| 0 <= i < cat.len() && #[trigger] cat[i].id@ == id;
                assert(r[i].id@ == id);
            }
            if d.id@ == id {
                assert(r[cat.len() as int].id@ == id);
            }
            if has_id(r, id) {
                let i = choose|i: int| 0 <= i < r.len() && #[trigger] r[i].id@ == id;
                if i < cat.len() {
                    assert(cat[i].id@ == id);
                }
            }
        }
    }
}

} // verus!

verus! {

pub proof fn lemma_absorb(cat: Seq<BotDescriptor>, bots: Seq<RemoteBot>, k: usize)
    requires
        unique_ids(cat),
    ensures
        unique_ids(absorb(cat, bots, k)),
        forall|id: Seq<char>| #[trigger]
            has_id(absorb(cat, bots, k), id) <==> (has_id(cat, id) || lists_id(bots, id)),
        forall|i: int|
            0 <= i < absorb(cat, bots, k).len() ==> {
                let e = #[trigger] absorb(cat, bots, k)[i];
                &&& lists_id(bots, e.id@) ==> e.provider == k
                &&& !lists_id(bots, e.id@) ==> exists|i2: int|
                    0 <= i2 < cat.len() && #[trigger] cat[i2] == e
            },
    decreases bots.len(),
{
    if bots.len() > 0 {
        let prev = bots.drop_last();
        let before = absorb(cat, prev, k);
        let d = descriptor(bots.last(), k);
        lemma_absorb(cat, prev, k);
        lemma_place(before, d);
        let r = absorb(cat, bots, k);
        assert(lists_id(bots, d.id@)) by {
            assert(bots[bots.len() - 1].id@ == d.id@);
        }
        assert forall|id: Seq<char>| lists_id(prev, id) implies lists_id(bots, id) by {
            let j = choose|j: int| 0 <= j < prev.len() && #[trigger] prev[j].id@ == id;
            assert(bots[j].id@ == id);
        }
        assert forall|id: Seq<char>|
            lists_id(bots, id) && id != d.id@ implies lists_id(prev, id) by {
            let j = choose|j: int| 0 <= j < bots.len() && #[trigger] bots[j].id@ == id;
            assert(prev[j].id@ == id);
        }
        assert forall|id: Seq<char>| #[trigger]
            has_id(r, id) <==> (has_id(cat, id) || lists_id(bots, id)) by {
            assert(has_id(before, id) <==> (has_id(cat, id) || lists_id(prev, id)));
        }
        assert forall|i: int| 0 <= i < r.len() implies {
            let e = #[trigger] r[i];
            &&& lists_id(bots, e.id@) ==> e.provider == k
            &&& !lists_id(bots, e.id@) ==> exists|i2: int|
                0 <= i2 < cat.len() && #[trigger] cat[i2] == e
        } by {
            let e = r[i];
            if e != d {
                let i3 = choose|i3: int| 0 <= i3 < before.len() && #[trigger] before[i3] == e;
                assert(before[i3] == e);
            }
        }
    }
}

/// A discovery pass yields a catalog with one entry per bot id; the ids are
/// exactly those that some answering client listed, and each is served by the
/// last registered client that listed it. A failed client contributes nothing.
pub proof fn lemma_discovery_isolation(ls: Seq<Listing>)
    requires
        ls.len() <= usize::MAX,
    ensures
        unique_ids(merged(ls)),
        forall|id: Seq<char>| #[trigger] has_id(merged(ls), id) <==> owner(ls, id) >= 0,
        forall|i: int|
            0 <= i < merged(ls).len() ==> #[trigger] merged(ls)[i].provider == owner(
                ls,
                merged(ls)[i].id@,
            ),
    decreases ls.len(),
{
    if ls.len() > 0 {
        let prev = ls.drop_last();
        let before = merged(prev);
        let n = ls.len() - 1;
        lemma_discovery_isolation(prev);
        assert forall|id: Seq<char>| !listed_by(ls, n, id) implies owner(ls, id) == owner(prev, id) by {}
        match ls.last() {
            Some(bots) => {
                lemma_absorb(before, bots@, n as usize);
                let r = merged(ls);
                assert forall|id: Seq<char>| #[trigger] has_id(r, id) <==> owner(ls, id) >= 0 by {
                    assert(has_id(before, id) <==> owner(prev, id) >= 0);
                }
                assert forall|i: int| 0 <= i < r.len() implies #[trigger] r[i].provider == owner(
                    ls,
                    r[i].id@,
                ) by {
                    let e = r[i];
                    if !lists_id(bots@, e.id@) {
                        let i2 = choose|i2: int| 0 <= i2 < before.len() && #[trigger] before[i2] == e;
                        assert(before[i2].provider == owner(prev, before[i2].id@));
                    }
                }
            },
            None => {},
        }
    }
}

/// Dispatch goes to the client that the latest discovery pass found serving
/// the bot, and fails with `UnknownBot` for an id that no answering client
/// listed.
pub proof fn lemma_dispatch_routes_to_owner(ls: Seq<Listing>, id: Seq<char>)
    requires
        ls.len() <= usize::MAX,
    ensures
        route_of(merged(ls), id) == (if owner(ls, id) >= 0 {
            Ok(owner(ls, id) as usize)
        } else {
            Err(CoreError::UnknownBot)
        }),
{
    lemma_discovery_isolation(ls);
    let cat = merged(ls);
    if has_id(cat, id) {
        let i = index_of(cat, id);
        assert(cat[i].provider == owner(ls, cat[i].id@));
    }
}

} // verus!

verus! {

/// An immutable snapshot of the bots found by one discovery pass, which is
/// also the table that routes a bot id to its client.
pub struct Catalog {
    bots: Vec<BotDescriptor>,
}

fn index_by_id(cat: &Vec<BotDescriptor>, id: &String) -> (r: Option<usize>)
    requires
        unique_ids(cat@),
    ensures
        match r {
            Some(i) => has_id(cat@, id@) && i as int == index_of(cat@, id@),
            None => !has_id(cat@, id@),
        },
{
    let mut i: usize = 0;
    while i < cat.len()
        invariant
            i <= cat@.len(),
            unique_ids(cat@),
            forall|j: int| 0 <= j < i ==> #[trigger] cat@[j].id@ != id@,
        decreases cat@.len() - i,
    {
        if cat[i].id == *id {
            proof {
                assert(cat@[i as int].id@ == id@);
                assert(has_id(cat@, id@));
                let x = index_of(cat@, id@);
                if x < i {
                    assert(cat@[x].id@ != cat@[i as int].id@);
                } else if x > i {
                    assert(cat@[i as int].id@ != cat@[x].id@);
                }
            }
            return Some(i);
        }
        i = i + 1;
    }
    None
}

fn place_bot(cat: &mut Vec<BotDescriptor>, d: BotDescriptor)
    requires
        unique_ids(old(cat)@),
    ensures
        final(cat)@ == place(old(cat)@, d),
        unique_ids(final(cat)@),
{
    proof {
        lemma_place(cat@, d);
    }
    match index_by_id(cat, &d.id) {
        Some(i) => cat.set(i, d),
        None => cat.push(d),
    }
}

impl Catalog {
    pub closed spec fn view(&self) -> Seq<BotDescriptor> {
        self.bots@
    }

    pub closed spec fn wf(&self) -> bool {
        unique_ids(self.bots@)
    }

    /// The catalog before any discovery.
    pub fn empty() -> (r: Catalog)
        ensures
            r.view() == Seq::<BotDescriptor>::empty(),
            r.wf(),
    {
        Catalog { bots: Vec::new() }
    }

    /// Merges the listings of one discovery pass, one per registered client
    /// in registration order. A client whose listing failed contributes no
    /// bots; where two clients list one id, the later one serves it.
    pub fn from_listings(listings: &Vec<Listing>) -> (r: Catalog)
        ensures
            r.view() == merged(listings@),
            r.wf(),
    {
        let mut cat: Vec<BotDescriptor> = Vec::new();
        let mut k: usize = 0;
        while k < listings.len()
            invariant
                k <= listings@.len(),
                cat@ == merged(listings@.take(k as int)),
                unique_ids(cat@),
            decreases listings@.len() - k,
        {
            let ghost start = cat@;
            assert(listings@.take(k as int + 1).drop_last() =~= listings@.take(k as int));
            match &listings[k] {
                Some(bots) => {
                    let mut j: usize = 0;
                    while j < bots.len()
                        invariant
                            k < listings@.len(),
                            j <= bots@.len(),
                            cat@ == absorb(start, bots@.take(j as int), k),
                            unique_ids(cat@),
                        decreases bots@.len() - j,
                    {
                        assert(bots@.take(j as int + 1).drop_last() =~= bots@.take(j as int));
                        let d = BotDescriptor {
                            id: bots[j].id.clone(),
                            name: bots[j].name.clone(),
                            provider: k,
                        };
                        place_bot(&mut cat, d);
                        j = j + 1;
                    }
                    assert(bots@.take(j as int) =~= bots@);
                },
                None => {},
            }
            k = k + 1;
        }
        assert(listings@.take(k as int) =~= listings@);
        Catalog { bots: cat }
    }

    /// The bots of the catalog, in catalog order.
    pub fn bots(&self) -> (r: &Vec<BotDescriptor>)
        ensures
            r@ == self.view(),
    {
        &self.bots
    }

    pub fn len(&self) -> (r: usize)
        ensures
            r == self.view().len(),
    {
        self.bots.len()
    }

    pub fn contains(&self, id: &String) -> (r: bool)
        requires
            self.wf(),
        ensures
            r == has_id(self.view(), id@),
    {
        index_by_id(&self.bots, id).is_some()
    }

    /// The index of the client that serves this bot id.
    pub fn route(&self, id: &String) -> (r: Result<usize, CoreError>)
        requires
            self.wf(),
        ensures
            r == route_of(self.view(), id@),
    {
        match index_by_id(&self.bots, id) {
            Some(i) => Ok(self.bots[i].provider),
            None => Err(CoreError::UnknownBot),
        }
    }
}

} // verus!
