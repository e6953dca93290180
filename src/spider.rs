//! The spider's decisions: which addresses enter the frontier. It owns the set
//! of addresses already handed out, so each address is fetched at most once.
use vstd::prelude::*;
use crate::page::{PageResult, PageView, urls_view};
use crate::item::code_of;
use crate::url::{AddressView, GopherURL, parse_address};
use std::collections::HashMap;

verus! {

broadcast use vstd::std_specs::hash::group_hash_axioms;

/// A page whose selector has at least this many `/` is stored, but its links
/// are not followed.
pub const MAX_SELECTOR_DEPTH: usize = 50;

/// The number of `/` in a selector.
pub open spec fn slash_count(s: Seq<char>) -> nat
    decreases s.len(),
{
    if s.len() == 0 {
        0
    } else {
        slash_count(s.drop_last()) + if s.last() == '/' { 1nat } else { 0nat }
    }
}

pub open spec fn too_deep(a: AddressView) -> bool {
    slash_count(a.selector) >= MAX_SELECTOR_DEPTH
}

/// The candidates that are neither in `seen` nor earlier among the candidates,
/// in order.
pub open spec fn fresh_in(seen: Seq<AddressView>, cands: Seq<AddressView>) -> Seq<AddressView>
    decreases cands.len(),
{
    if cands.len() == 0 {
        Seq::empty()
    } else {
        let pre = fresh_in(seen, cands.drop_last());
        if (seen + pre).contains(cands.last()) {
            pre
        } else {
            pre.push(cands.last())
        }
    }
}

/// The addresses that the seed texts denote, skipping those that do not parse.
pub open spec fn seed_addresses(seeds: Seq<Seq<char>>) -> Seq<AddressView>
    decreases seeds.len(),
{
    if seeds.len() == 0 {
        Seq::empty()
    } else {
        let rest = seed_addresses(seeds.drop_last());
        match parse_address(seeds.last()) {
            Some(a) => rest.push(a),
            None => rest,
        }
    }
}

/// The links of a page that are to be followed: none for a page too deep or
/// without links.
pub open spec fn links_to_follow(page: PageView) -> Seq<AddressView> {
    if too_deep(page.url) {
        Seq::empty()
    } else {
        match page.links {
            Some(l) => l,
            None => Seq::empty(),
        }
    }
}

/// What a step hands out is new: none of it was handed out before, none of it
/// twice, and together with what was handed out before it covers every candidate.
pub proof fn lemma_fresh_in(seen: Seq<AddressView>, cands: Seq<AddressView>)
    ensures
        forall|a: AddressView| #[trigger] fresh_in(seen, cands).contains(a) ==> !seen.contains(a),
        seen.no_duplicates() ==> (seen + fresh_in(seen, cands)).no_duplicates(),
        forall|a: AddressView| #[trigger] cands.contains(a) ==> (seen + fresh_in(seen, cands)).contains(a),
    decreases cands.len(),
{
    if cands.len() > 0 {
        let pre = fresh_in(seen, cands.drop_last());
        lemma_fresh_in(seen, cands.drop_last());
        let c = cands.last();
        assert forall|a: AddressView| #[trigger] cands.contains(a) implies (seen + fresh_in(seen, cands)).contains(a) by {
            let k = choose|k: int| 0 <= k < cands.len() && cands[k] == a;
            if k < cands.len() - 1 {
                assert(cands.drop_last().contains(a)) by {
                    assert(cands.drop_last()[k] == a);
                }
                let m = choose|m: int| 0 <= m < (seen + pre).len() && (seen + pre)[m] == a;
                assert((seen + fresh_in(seen, cands))[m] == a);
            } else if !(seen + pre).contains(c) {
                assert((seen + fresh_in(seen, cands))[(seen + pre).len() as int] == a);
            }
        }
        if !(seen + pre).contains(c) {
            assert(seen + pre.push(c) =~= (seen + pre).push(c));
            assert forall|a: AddressView| #[trigger] pre.push(c).contains(a) implies !seen.contains(a) by {
                if a != c {
                    let k = choose|k: int| 0 <= k < pre.push(c).len() && pre.push(c)[k] == a;
                    assert(pre[k] == a);
                    assert(pre.contains(a));
                } else {
                    if seen.contains(a) {
                        let k = choose|k: int| 0 <= k < seen.len() && seen[k] == a;
                        assert((seen + pre)[k] == a);
                    }
                }
            }
            if seen.no_duplicates() {
                let all = (seen + pre).push(c);
                assert forall|i: int, j: int| 0 <= i < j < all.len() implies all[i] != all[j] by {
                    if j == all.len() - 1 {
                        assert((seen + pre)[i] == all[i]);
                    }
                }
            }
        }
    }
}

/// A page whose selector is too deep contributes no address, whatever its links.
pub proof fn lemma_deep_page_adds_nothing(seen: Seq<AddressView>, page: PageView)
    requires
        too_deep(page.url),
    ensures
        fresh_in(seen, links_to_follow(page)) == Seq::<AddressView>::empty(),
{
}

/// The modulus of the address hash; it keeps every step of the hash inside `u64`.
pub const HASH_MODULUS: u64 = 0x3ff_ffff_ffff_ffc7;

/// One step of the address hash.
pub open spec fn mix(h: nat, x: nat) -> nat {
    (h * 31 + x) % (HASH_MODULUS as nat)
}

/// The hash of `h` followed by the characters of `s`.
pub open spec fn hash_chars(h: nat, s: Seq<char>) -> nat
    decreases s.len(),
{
    if s.len() == 0 {
        h
    } else {
        mix(hash_chars(h, s.drop_last()), s.last() as u32 as nat)
    }
}

/// The key under which the spider files an address: a hash of all four parts.
#[verifier::opaque]
pub open spec fn address_hash(a: AddressView) -> nat {
    mix(
        mix(hash_chars(hash_chars(0, a.host), a.selector), a.port as nat),
        code_of(a.kind) as u32 as nat,
    )
}

fn mix_exec(h: u64, x: u64) -> (r: u64)
    requires
        h < HASH_MODULUS,
        x <= u32::MAX,
    ensures
        r as nat == mix(h as nat, x as nat),
        r < HASH_MODULUS,
{
    (h * 31 + x) % HASH_MODULUS
}

fn hash_str(h: u64, s: &str) -> (r: u64)
    requires
        h < HASH_MODULUS,
    ensures
        r as nat == hash_chars(h as nat, s@),
        r < HASH_MODULUS,
{
    let v = crate::text::chars_of(s);
    let mut r = h;
    let mut i: usize = 0;
    while i < v.len()
        invariant
            i <= v@.len(),
            v@ == s@,
            r < HASH_MODULUS,
            r as nat == hash_chars(h as nat, v@.subrange(0, i as int)),
        decreases v.len() - i,
    {
        assert(v@.subrange(0, i + 1).drop_last() =~= v@.subrange(0, i as int));
        r = mix_exec(r, v[i] as u32 as u64);
        i = i + 1;
    }
    assert(v@.subrange(0, i as int) =~= v@);
    r
}

fn hash_address(u: &GopherURL) -> (r: u64)
    ensures
        r as nat == address_hash(u@),
        r < HASH_MODULUS,
{
    let h = hash_str(0, u.host.as_str());
    let h = hash_str(h, u.selector.as_str());
    let h = mix_exec(h, u.port as u64);
    proof {
        reveal(address_hash);
    }
    mix_exec(h, u.gopher_type.to_char() as u32 as u64)
}

/// Whether one of the positions in `bucket` holds `u`.
fn scan_bucket(visited: &Vec<GopherURL>, bucket: &Vec<usize>, u: &GopherURL) -> (b: bool)
    requires
        forall|j: int| 0 <= j < bucket@.len() ==> (#[trigger] bucket@[j] as int) < visited@.len(),
    ensures
        b == exists|j: int|
            0 <= j < bucket@.len() && visited@[#[trigger] bucket@[j] as int]@ == u@,
{
    let mut j: usize = 0;
    while j < bucket.len()
        invariant
            j <= bucket@.len(),
            forall|k: int| 0 <= k < bucket@.len() ==> (#[trigger] bucket@[k] as int) < visited@.len(),
            forall|k: int| 0 <= k < j ==> visited@[#[trigger] bucket@[k] as int]@ != u@,
        decreases bucket.len() - j,
    {
        if visited[bucket[j]] == *u {
            assert(visited@[bucket@[j as int] as int]@ == u@);
            return true;
        }
        j = j + 1;
    }
    false
}

/// The crawl state: every address handed to the frontier so far, in order, and
/// the positions of those addresses filed under their hash.
pub struct Spider {
    visited: Vec<GopherURL>,
    buckets: HashMap<u64, Vec<usize>>,
}

impl Spider {
    /// The addresses handed out so far, in the order they were handed out.
    pub closed spec fn dispatched(&self) -> Seq<AddressView> {
        urls_view(self.visited@)
    }

    pub closed spec fn wf(&self) -> bool {
        &&& self.dispatched().no_duplicates()
        &&& forall|k: u64, j: int|
            #![trigger self.buckets@[k]@[j]]
            self.buckets@.contains_key(k) && 0 <= j < self.buckets@[k]@.len() ==> {
                &&& (self.buckets@[k]@[j] as int) < self.visited@.len()
                &&& address_hash(self.visited@[self.buckets@[k]@[j] as int]@) == k as nat
            }
        &&& forall|i: int|
            #![trigger self.visited@[i]]
            0 <= i < self.visited@.len() ==> {
                &&& address_hash(self.visited@[i]@) < HASH_MODULUS
                &&& self.buckets@.contains_key(address_hash(self.visited@[i]@) as u64)
                &&& self.buckets@[address_hash(self.visited@[i]@) as u64]@.contains(i as usize)
            }
    }

    /// No address is handed out twice over the life of a spider.
    pub proof fn lemma_dispatched_once(&self)
        requires
            self.wf(),
        ensures
            self.dispatched().no_duplicates(),
    {
    }

    /// A spider that has handed out nothing.
    pub fn new() -> (s: Spider)
        ensures
            s.wf(),
            s.dispatched() == Seq::<AddressView>::empty(),
    {
        let s = Spider { visited: Vec::new(), buckets: HashMap::new() };
        assert(s.dispatched() =~= Seq::<AddressView>::empty());
        s
    }

    /// The number of addresses handed out so far.
    pub fn visited_count(&self) -> (n: usize)
        ensures
            n == self.dispatched().len(),
    {
        self.visited.len()
    }

    /// Whether `u` has been handed out.
    pub fn is_visited(&self, u: &GopherURL) -> (b: bool)
        requires
            self.wf(),
        ensures
            b == self.dispatched().contains(u@),
    {
        let h = hash_address(u);
        match self.buckets.get(&h) {
            None => {
                proof {
                    if self.dispatched().contains(u@) {
                        let i = choose|i: int|
                            0 <= i < self.dispatched().len() && self.dispatched()[i] == u@;
                        assert(self.visited@[i]@ == u@);
                        assert(address_hash(self.visited@[i]@) as u64 == h);
                        assert(self.buckets@.contains_key(h));
                    }
                }
                false
            },
            Some(bucket) => {
                assert(self.buckets@[h] == *bucket);
                assert forall|j: int| 0 <= j < bucket@.len() implies (#[trigger] bucket@[j] as int)
                    < self.visited@.len() by {
                    assert(self.buckets@[h]@[j] == bucket@[j]);
                }
                let found = scan_bucket(&self.visited, bucket, u);
                proof {
                    if found {
                        let jj = choose|jj: int|
                            0 <= jj < bucket@.len() && self.visited@[#[trigger] bucket@[jj] as int]@
                                == u@;
                        assert(self.dispatched()[bucket@[jj] as int] == u@);
                    } else if self.dispatched().contains(u@) {
                        let i = choose|i: int|
                            0 <= i < self.dispatched().len() && self.dispatched()[i] == u@;
                        assert(self.visited@[i]@ == u@);
                        assert(address_hash(self.visited@[i]@) as u64 == h);
                        assert(bucket@.contains(i as usize));
                        let jj = choose|jj: int|
                            0 <= jj < bucket@.len() && bucket@[jj] == i as usize;
                        assert(i < self.visited.len());
                        assert((i as usize) as int == i);
                        assert(bucket@[jj] as int == i);
                        assert(self.visited@[bucket@[jj] as int]@ == u@);
                    }
                }
                found
            },
        }
    }

    /// Records `u` unless it was handed out already; true when it is new.
    fn record(&mut self, u: &GopherURL) -> (fresh: bool)
        requires
            old(self).wf(),
        ensures
            final(self).wf(),
            fresh == !old(self).dispatched().contains(u@),
            final(self).dispatched() == if fresh {
                old(self).dispatched().push(u@)
            } else {
                old(self).dispatched()
            },
    {
        if self.is_visited(u) {
            return false;
        }
        let ghost before = self.dispatched();
        let ghost old_visited = self.visited@;
        let ghost old_buckets = self.buckets@;
        let h = hash_address(u);
        let n = self.visited.len();
        self.visited.push(u.clone());
        assert(self.visited@[n as int]@ == u@);
        let mut bucket = match self.buckets.remove(&h) {
            Some(b) => b,
            None => Vec::new(),
        };
        let ghost old_bucket = bucket@;
        assert(old_buckets.contains_key(h) ==> old_bucket == old_buckets[h]@);
        assert(!old_buckets.contains_key(h) ==> old_bucket.len() == 0);
        bucket.push(n);
        self.buckets.insert(h, bucket);
        assert(self.dispatched() =~= before.push(u@));
        assert(self.dispatched().no_duplicates()) by {
            assert forall|i: int, j: int|
                0 <= i < j < self.dispatched().len() implies self.dispatched()[i]
                != self.dispatched()[j] by {
                if j == before.len() {
                    assert(before.contains(before[i]));
                }
            }
        }
        assert forall|k: u64, j: int|
            #![trigger self.buckets@[k]@[j]]
            self.buckets@.contains_key(k) && 0 <= j < self.buckets@[k]@.len() implies {
                &&& (self.buckets@[k]@[j] as int) < self.visited@.len()
                &&& address_hash(self.visited@[self.buckets@[k]@[j] as int]@) == k as nat
            } by {
            if k == h {
                if j < old_bucket.len() {
                    assert(self.buckets@[k]@[j] == old_buckets[h]@[j]);
                }
            } else {
                assert(self.buckets@[k] == old_buckets[k]);
            }
        }
        assert forall|i: int|
            #![trigger self.visited@[i]]
            0 <= i < self.visited@.len() implies {
                &&& address_hash(self.visited@[i]@) < HASH_MODULUS
                &&& self.buckets@.contains_key(address_hash(self.visited@[i]@) as u64)
                &&& self.buckets@[address_hash(self.visited@[i]@) as u64]@.contains(i as usize)
            } by {
            if i < n {
                assert(self.visited@[i] == old_visited[i]);
                let k = address_hash(old_visited[i]@) as u64;
                if k == h {
                    let jj = choose|jj: int|
                        0 <= jj < old_buckets[k]@.len() && old_buckets[k]@[jj] == i as usize;
                    assert(self.buckets@[k]@[jj] == i as usize);
                } else {
                    assert(self.buckets@[k] == old_buckets[k]);
                }
            } else {
                assert(self.buckets@[h]@[old_bucket.len() as int] == n);
            }
        }
        true
    }

    /// Records each candidate not handed out yet and returns those, in order.
    fn record_all(&mut self, cands: &Vec<GopherURL>) -> (r: Vec<GopherURL>)
        requires
            old(self).wf(),
        ensures
            final(self).wf(),
            urls_view(r@) == fresh_in(old(self).dispatched(), urls_view(cands@)),
            final(self).dispatched() == old(self).dispatched() + urls_view(r@),
    {
        let ghost start = self.dispatched();
        let mut r: Vec<GopherURL> = Vec::new();
        let mut i: usize = 0;
        while i < cands.len()
            invariant
                i <= cands@.len(),
                self.wf(),
                urls_view(r@) == fresh_in(start, urls_view(cands@).subrange(0, i as int)),
                self.dispatched() == start + urls_view(r@),
            decreases cands.len() - i,
        {
            let ghost pre = urls_view(cands@).subrange(0, i as int);
            let ghost next = urls_view(cands@).subrange(0, i + 1);
            assert(next.drop_last() =~= pre);
            assert(next.last() == cands@[i as int]@);
            let ghost rv = urls_view(r@);
            if self.record(&cands[i]) {
                r.push(cands[i].clone());
                assert(urls_view(r@) =~= rv.push(cands@[i as int]@));
            } else {
                assert(urls_view(r@) =~= rv);
            }
            assert(self.dispatched() =~= start + urls_view(r@));
            i = i + 1;
        }
        assert(urls_view(cands@).subrange(0, i as int) =~= urls_view(cands@));
        r
    }

    /// Starts a crawl from address texts: those that parse and were not handed
    /// out before are recorded and returned, in order, to be sent to the frontier.
    pub fn seed(&mut self, seeds: &Vec<String>) -> (r: Vec<GopherURL>)
        requires
            old(self).wf(),
        ensures
            final(self).wf(),
            urls_view(r@) == fresh_in(
                old(self).dispatched(),
                seed_addresses(seeds@.map_values(|s: String| s@)),
            ),
            final(self).dispatched() == old(self).dispatched() + urls_view(r@),
    {
        let ghost texts = seeds@.map_values(|s: String| s@);
        let mut cands: Vec<GopherURL> = Vec::new();
        let mut i: usize = 0;
        while i < seeds.len()
            invariant
                i <= seeds@.len(),
                texts == seeds@.map_values(|s: String| s@),
                urls_view(cands@) == seed_addresses(texts.subrange(0, i as int)),
            decreases seeds.len() - i,
        {
            assert(texts.subrange(0, i + 1).drop_last() =~= texts.subrange(0, i as int));
            assert(texts.subrange(0, i + 1).last() == seeds@[i as int]@);
            let ghost cv = urls_view(cands@);
            match GopherURL::parse(seeds[i].as_str()) {
                Ok(u) => {
                    cands.push(u);
                    assert(urls_view(cands@) =~= cv.push(u@));
                },
                Err(_) => {
                    assert(urls_view(cands@) =~= cv);
                },
            }
            i = i + 1;
        }
        assert(texts.subrange(0, i as int) =~= texts);
        self.record_all(&cands)
    }

    /// Takes in a fetched page. The caller stores the page whatever this returns;
    /// the returned addresses are the page's links not handed out before, each
    /// once, in order: they are now recorded and go to the frontier. A page whose
    /// selector holds `MAX_SELECTOR_DEPTH` or more `/` contributes none.
    pub fn on_page(&mut self, page: &PageResult) -> (r: Vec<GopherURL>)
        requires
            old(self).wf(),
        ensures
            final(self).wf(),
            urls_view(r@) == fresh_in(old(self).dispatched(), links_to_follow(page@)),
            final(self).dispatched() == old(self).dispatched() + urls_view(r@),
    {
        if selector_depth(page.url.selector.as_str()) >= MAX_SELECTOR_DEPTH {
            let r: Vec<GopherURL> = Vec::new();
            assert(urls_view(r@) =~= Seq::<AddressView>::empty());
            assert(self.dispatched() =~= self.dispatched() + urls_view(r@));
            return r;
        }
        match &page.links {
            Some(links) => self.record_all(links),
            None => {
                let r: Vec<GopherURL> = Vec::new();
                assert(urls_view(r@) =~= Seq::<AddressView>::empty());
                assert(self.dispatched() =~= self.dispatched() + urls_view(r@));
                r
            },
        }
    }
}

/// The number of `/` in a selector.
pub fn selector_depth(s: &str) -> (n: usize)
    ensures
        n == slash_count(s@),
{
    let v = crate::text::chars_of(s);
    let mut n: usize = 0;
    let mut i: usize = 0;
    while i < v.len()
        invariant
            i <= v@.len(),
            v@ == s@,
            n == slash_count(v@.subrange(0, i as int)),
            n <= i,
        decreases v.len() - i,
    {
        assert(v@.subrange(0, i + 1).drop_last() =~= v@.subrange(0, i as int));
        if v[i] == '/' {
            n = n + 1;
        }
        i = i + 1;
    }
    assert(v@.subrange(0, i as int) =~= v@);
    n
}

} // verus!
