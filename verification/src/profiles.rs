//! Profiles: a working strategy bound to the network it was found on, and the
//! store that holds them together with the id of the default one.
use vstd::prelude::*;
use crate::error::{CoreError, CoreResult};
use crate::network::{fingerprints_match, opt_view, DomainCheck, NetworkFingerprint};
use crate::strategy::Strategy;
use crate::text::{concat, dec, push_decimal, str_eq};

verus! {

/// A UTC instant: seconds since the Unix epoch and the nanoseconds past that
/// second.
#[derive(Debug, Clone, Copy, PartialEq, Eq)]
pub struct Timestamp {
    pub secs: i64,
    pub nanos: u32,
}

/// The current time, read as `chrono::DateTime::<Utc>::from(SystemTime::now())`
/// and taken apart into seconds and nanoseconds. Of the reading nothing is
/// stated but that the nanoseconds are below one second. The conversion
/// handles a clock before the Unix epoch (negative seconds); it fails only
/// for a time that chrono cannot represent (beyond some 262,000 years from
/// now), which no system clock on Linux or Windows can read.
#[verifier::external_body]
fn now_utc() -> (r: Timestamp)
    ensures
        r.nanos < 1_000_000_000,
{
    let t = chrono::DateTime::<chrono::Utc>::from(std::time::SystemTime::now());
    Timestamp { secs: t.timestamp(), nanos: t.timestamp_subsec_nanos() }
}

/// Last-known check results for a profile's target.
#[derive(Debug, Clone)]
pub struct TestResults {
    pub text: bool,
    pub voice: bool,
    pub last_checked: Option<Timestamp>,
}

impl Default for TestResults {
    fn default() -> (r: Self)
        ensures
            !r.text,
            !r.voice,
            r.last_checked is None,
    {
        TestResults { text: false, voice: false, last_checked: None }
    }
}

impl TestResults {
    /// The results of a check made at `now`: text open, voice probed and
    /// open.
    pub fn from_check(check: &DomainCheck, now: Timestamp) -> (r: Self)
        ensures
            r.text == (check.text is Reachable),
            r.voice == (check.voice matches Some(v) && v is Reachable),
            r.last_checked == Some(now),
    {
        TestResults {
            text: check.text.is_open(),
            voice: match check.voice {
                Some(v) => v.is_open(),
                None => false,
            },
            last_checked: Some(now),
        }
    }
}

/// A saved, working configuration for one network.
#[derive(Debug, Clone)]
pub struct Profile {
    pub id: String,
    pub name: String,
    pub created_at: Timestamp,
    pub network_fingerprint: NetworkFingerprint,
    pub domains: Vec<String>,
    pub strategy: Strategy,
    pub test_results: TestResults,
    pub auto_test_interval_min: u32,
}

/// Minutes between background re-tests of a new profile.
pub fn default_interval() -> (r: u32)
    ensures
        r == 30,
{
    30
}

impl Profile {
    /// A new profile, created now, with no test results yet and the default
    /// re-test interval.
    pub fn new(
        id: &str,
        name: &str,
        domains: Vec<String>,
        strategy: Strategy,
        fingerprint: NetworkFingerprint,
    ) -> (r: Self)
        ensures
            r.id@ == id@,
            r.name@ == name@,
            r.domains == domains,
            r.strategy == strategy,
            r.network_fingerprint == fingerprint,
            !r.test_results.text,
            !r.test_results.voice,
            r.test_results.last_checked is None,
            r.auto_test_interval_min == 30,
            r.created_at.nanos < 1_000_000_000,
    {
        Profile {
            id: id.to_owned(),
            name: name.to_owned(),
            created_at: now_utc(),
            network_fingerprint: fingerprint,
            domains,
            strategy,
            test_results: TestResults::default(),
            auto_test_interval_min: default_interval(),
        }
    }
}

/// The collection of profiles plus the id of the default one.
#[derive(Debug, Clone)]
pub struct ProfileStore {
    pub profiles: Vec<Profile>,
    pub default_id: Option<String>,
}

impl Default for ProfileStore {
    fn default() -> (r: Self)
        ensures
            r.profiles@.len() == 0,
            r.default_id is None,
    {
        ProfileStore { profiles: Vec::new(), default_id: None }
    }
}

/// Position of the first profile at or after `i` whose id is `id` (or the
/// end).
pub open spec fn first_with_id(ps: Seq<Profile>, id: Seq<char>, i: int) -> int
    decreases ps.len() - i,
{
    if 0 <= i < ps.len() && ps[i].id@ != id {
        first_with_id(ps, id, i + 1)
    } else {
        i
    }
}

/// Position of the first profile whose id is `id`, or the length when none
/// is.
pub open spec fn index_of(ps: Seq<Profile>, id: Seq<char>) -> int {
    first_with_id(ps, id, 0)
}

/// Whether some profile has the id `id`.
pub open spec fn has_id(ps: Seq<Profile>, id: Seq<char>) -> bool {
    exists|i: int| 0 <= i < ps.len() && ps[i].id@ == id
}

pub proof fn lemma_first_with_id(ps: Seq<Profile>, id: Seq<char>, i: int)
    requires
        0 <= i <= ps.len(),
    ensures
        i <= first_with_id(ps, id, i) <= ps.len(),
        forall|k: int| i <= k < first_with_id(ps, id, i) ==> ps[k].id@ != id,
        first_with_id(ps, id, i) < ps.len() ==> ps[first_with_id(ps, id, i)].id@ == id,
    decreases ps.len() - i,
{
    if i < ps.len() && ps[i].id@ != id {
        lemma_first_with_id(ps, id, i + 1);
    }
}

/// A profile is found exactly when some profile has the id.
pub proof fn lemma_index_of(ps: Seq<Profile>, id: Seq<char>)
    ensures
        0 <= index_of(ps, id) <= ps.len(),
        forall|k: int| 0 <= k < index_of(ps, id) ==> ps[k].id@ != id,
        index_of(ps, id) < ps.len() <==> has_id(ps, id),
        index_of(ps, id) < ps.len() ==> ps[index_of(ps, id)].id@ == id,
{
    lemma_first_with_id(ps, id, 0);
}

impl ProfileStore {
    /// Position of the first profile whose id is `id`, or the number of
    /// profiles when none is.
    pub fn position(&self, id: &str) -> (k: usize)
        ensures
            k == index_of(self.profiles@, id@),
    {
        proof {
            lemma_index_of(self.profiles@, id@);
        }
        let n = self.profiles.len();
        let mut k: usize = 0;
        while k < n && !str_eq(self.profiles[k].id.as_str(), id)
            invariant
                n == self.profiles@.len(),
                0 <= k <= n,
                index_of(self.profiles@, id@) == first_with_id(self.profiles@, id@, k as int),
            decreases n - k,
        {
            k = k + 1;
        }
        k
    }

    /// The first profile whose id is `id`.
    pub fn get(&self, id: &str) -> (r: Option<&Profile>)
        ensures
            r is Some <==> has_id(self.profiles@, id@),
            r matches Some(p) ==> *p == self.profiles@[index_of(self.profiles@, id@)],
    {
        proof {
            lemma_index_of(self.profiles@, id@);
        }
        let k = self.position(id);
        if k < self.profiles.len() {
            Some(&self.profiles[k])
        } else {
            None
        }
    }

    /// The first profile whose id is `id`, for changing it in place.
    pub fn get_mut(&mut self, id: &str) -> (r: Option<&mut Profile>)
        ensures
            r is Some <==> has_id(old(self).profiles@, id@),
            r matches Some(p) ==> *p == old(self).profiles@[index_of(old(self).profiles@, id@)],
            r matches Some(p) ==> final(self).profiles@ == old(self).profiles@.update(
                index_of(old(self).profiles@, id@),
                *final(p),
            ),
            r is None ==> final(self).profiles@ == old(self).profiles@,
            final(self).default_id == old(self).default_id,
    {
        proof {
            lemma_index_of(self.profiles@, id@);
        }
        let k = self.position(id);
        if k < self.profiles.len() {
            Some(&mut self.profiles[k])
        } else {
            None
        }
    }

    /// Add `profile`; it becomes the default when there was none.
    pub fn add(&mut self, profile: Profile)
        ensures
            final(self).profiles@ == old(self).profiles@.push(profile),
            old(self).default_id is None ==> opt_view(final(self).default_id) == Some(
                profile.id@,
            ),
            old(self).default_id is Some ==> final(self).default_id == old(self).default_id,
    {
        if self.default_id.is_none() {
            self.default_id = Some(profile.id.clone());
        }
        self.profiles.push(profile);
    }
}

/// The profiles of `ps` whose id is not `id`, in order.
pub open spec fn without_id(ps: Seq<Profile>, id: Seq<char>) -> Seq<Profile>
    decreases ps.len(),
{
    if ps.len() == 0 {
        Seq::empty()
    } else {
        let rest = without_id(ps.drop_last(), id);
        if ps.last().id@ != id {
            rest.push(ps.last())
        } else {
            rest
        }
    }
}

/// Removing the profiles with an id leaves the sequence as long as before
/// exactly when no profile has that id.
pub proof fn lemma_without_id_len(ps: Seq<Profile>, id: Seq<char>)
    ensures
        without_id(ps, id).len() <= ps.len(),
        without_id(ps, id).len() == ps.len() <==> !has_id(ps, id),
        !has_id(ps, id) ==> without_id(ps, id) == ps,
    decreases ps.len(),
{
    if ps.len() > 0 {
        let init = ps.drop_last();
        lemma_without_id_len(init, id);
        if has_id(init, id) {
            let i = choose|i: int| 0 <= i < init.len() && init[i].id@ == id;
            assert(ps[i].id@ == id);
        }
        if has_id(ps, id) && !has_id(init, id) {
            let i = choose|i: int| 0 <= i < ps.len() && ps[i].id@ == id;
            if i < init.len() {
                assert(init[i].id@ == id);
            }
        }
        if !has_id(ps, id) {
            assert(ps.last().id@ != id) by {
                if ps.last().id@ == id {
                    assert(ps[ps.len() - 1].id@ == id);
                }
            }
            assert(!has_id(init, id)) by {
                if has_id(init, id) {
                    let i = choose|i: int| 0 <= i < init.len() && init[i].id@ == id;
                    assert(ps[i].id@ == id);
                }
            }
            assert(init.push(ps.last()) =~= ps);
        }
    }
}

/// The id `profile-<k>`.
pub open spec fn profile_id(k: nat) -> Seq<char> {
    "profile-"@ + dec(k)
}

/// The name `Profil <k>`.
pub open spec fn profile_name(k: nat) -> Seq<char> {
    "Profil "@ + dec(k)
}

/// `k` is the number the store hands out next: the least `k` above the number
/// of profiles whose id `profile-<k>` no profile has.
pub open spec fn is_next_free(ps: Seq<Profile>, k: nat) -> bool {
    &&& k >= ps.len() + 1
    &&& !has_id(ps, profile_id(k))
    &&& forall|j: nat| ps.len() + 1 <= j < k ==> has_id(ps, #[trigger] profile_id(j))
}

pub proof fn lemma_profile_id_injective(a: nat, b: nat)
    requires
        profile_id(a) == profile_id(b),
    ensures
        a == b,
{
    let p = "profile-"@;
    assert(profile_id(a).skip(p.len() as int) =~= dec(a));
    assert(profile_id(b).skip(p.len() as int) =~= dec(b));
    crate::text::lemma_dec_injective(a, b);
}

/// The ids of a sequence of profiles, as a set.
pub open spec fn id_set(ps: Seq<Profile>) -> Set<Seq<char>> {
    ps.map_values(|p: Profile| p.id@).to_set()
}

/// When every id `profile-<j>` for `lo <= j < hi` is taken, there are at
/// least `hi - lo` profiles: distinct numbers give distinct ids.
pub proof fn lemma_taken_ids_bound(ps: Seq<Profile>, lo: nat, hi: nat)
    requires
        lo <= hi,
        forall|j: nat| lo <= j < hi ==> has_id(ps, #[trigger] profile_id(j)),
    ensures
        hi - lo <= ps.len(),
{
    let r = vstd::set_lib::set_int_range(lo as int, hi as int);
    vstd::set_lib::lemma_int_range(lo as int, hi as int);
    let f = |j: int| profile_id(j as nat);
    assert(vstd::relations::injective_on(f, r)) by {
        assert forall|x: int, y: int| r.contains(x) && r.contains(y) && #[trigger] f(x) == #[trigger] f(
            y,
        ) implies x == y by {
            lemma_profile_id_injective(x as nat, y as nat);
        }
    }
    let img = r.map(f);
    vstd::set_lib::lemma_map_size(r, img, f);
    let ids = ps.map_values(|p: Profile| p.id@);
    ids.lemma_cardinality_of_set();
    assert(img.subset_of(id_set(ps))) by {
        assert forall|x: Seq<char>| img.contains(x) implies id_set(ps).contains(x) by {
            let j = choose|j: int| r.contains(j) && f(j) == x;
            assert(has_id(ps, profile_id(j as nat)));
            let i = choose|i: int| 0 <= i < ps.len() && ps[i].id@ == profile_id(j as nat);
            assert(ids[i] == x);
        }
    }
    vstd::set_lib::lemma_len_subset(img, id_set(ps));
}

impl ProfileStore {
    /// The next free `profile-N` id and its default name `Profil N`, trying
    /// `N` from one more than the number of profiles upwards.
    pub fn next_id(&self) -> (r: (String, String))
        requires
            self.profiles@.len() < usize::MAX / 2,
        ensures
            exists|k: nat|
                is_next_free(self.profiles@, k) && #[trigger] profile_id(k) == r.0@ && r.1@
                    == profile_name(k),
    {
        let len = self.profiles.len();
        let n = len + 1;
        let mut idx: usize = n;
        loop
            invariant
                len == self.profiles@.len(),
                len < usize::MAX / 2,
                n == len + 1,
                n <= idx <= n + len,
                forall|j: nat| n <= j < idx ==> has_id(self.profiles@, #[trigger] profile_id(j)),
            decreases n + len - idx,
        {
            let mut id = "profile-".to_owned();
            push_decimal(&mut id, idx as u64);
            proof {
                lemma_index_of(self.profiles@, id@);
            }
            if self.position(id.as_str()) >= len {
                let mut name = "Profil ".to_owned();
                push_decimal(&mut name, idx as u64);
                assert(is_next_free(self.profiles@, idx as nat));
                return (id, name);
            }
            assert(has_id(self.profiles@, profile_id(idx as nat)));
            proof {
                lemma_taken_ids_bound(self.profiles@, n as nat, (idx + 1) as nat);
            }
            idx = idx + 1;
        }
    }

    /// Remove every profile whose id is `id`. When the default was one of
    /// them, the first remaining profile becomes the default (none when no
    /// profile remains). Fails, changing nothing, when no profile has the id.
    pub fn remove(&mut self, id: &str) -> (r: CoreResult<()>)
        ensures
            final(self).profiles@ == without_id(old(self).profiles@, id@),
            !has_id(old(self).profiles@, id@) ==> (r matches Err(CoreError::ProfileNotFound(s))
                && s@ == id@),
            !has_id(old(self).profiles@, id@) ==> final(self).profiles@ == old(self).profiles@,
            has_id(old(self).profiles@, id@) ==> r is Ok,
            has_id(old(self).profiles@, id@) && opt_view(old(self).default_id) == Some(id@)
                ==> opt_view(final(self).default_id) == (if final(self).profiles@.len() > 0 {
                Some(final(self).profiles@[0].id@)
            } else {
                None
            }),
            !(has_id(old(self).profiles@, id@) && opt_view(old(self).default_id) == Some(id@))
                ==> final(self).default_id == old(self).default_id,
    {
        let ghost old_ps = self.profiles@;
        proof {
            lemma_without_id_len(old_ps, id@);
        }
        let before = self.profiles.len();
        let mut taken: Vec<Profile> = Vec::new();
        std::mem::swap(&mut taken, &mut self.profiles);
        let mut kept: Vec<Profile> = Vec::new();
        for p in it: taken.into_iter()
            invariant
                it.seq() == old_ps,
                kept@ == without_id(old_ps.take(it.index() as int), id@),
        {
            let ghost i = it.index();
            assert(old_ps.take(i + 1).drop_last() =~= old_ps.take(i as int));
            assert(old_ps.take(i + 1).last() == p);
            if !str_eq(p.id.as_str(), id) {
                kept.push(p);
            }
        }
        assert(old_ps.take(old_ps.len() as int) =~= old_ps);
        self.profiles = kept;
        if self.profiles.len() == before {
            assert(self.profiles@ == old_ps);
            return Err(CoreError::ProfileNotFound(id.to_owned()));
        }
        let is_default = match &self.default_id {
            Some(d) => str_eq(d.as_str(), id),
            None => false,
        };
        if is_default {
            self.default_id = if self.profiles.len() > 0 {
                Some(self.profiles[0].id.clone())
            } else {
                None
            };
        }
        Ok(())
    }
}

/// The strings of `v`, copied.
pub fn copy_strings(v: &Vec<String>) -> (r: Vec<String>)
    ensures
        r@ == v@,
{
    let mut out: Vec<String> = Vec::new();
    let n = v.len();
    let mut i: usize = 0;
    while i < n
        invariant
            n == v@.len(),
            0 <= i <= n,
            out@ == v@.take(i as int),
        decreases n - i,
    {
        out.push(v[i].clone());
        assert(v@.take(i + 1) =~= v@.take(i as int).push(v@[i as int]));
        i = i + 1;
    }
    assert(v@.take(n as int) =~= v@);
    out
}

impl TestResults {
    /// A field-by-field copy.
    pub fn duplicate(&self) -> (r: Self)
        ensures
            r == *self,
    {
        TestResults { text: self.text, voice: self.voice, last_checked: self.last_checked }
    }
}

/// Two profiles with equal fields (the domain lists holding the same
/// strings).
pub open spec fn same_profile(a: Profile, b: Profile) -> bool {
    &&& a.id == b.id
    &&& a.name == b.name
    &&& a.created_at == b.created_at
    &&& a.network_fingerprint == b.network_fingerprint
    &&& a.domains@ == b.domains@
    &&& a.strategy == b.strategy
    &&& a.test_results == b.test_results
    &&& a.auto_test_interval_min == b.auto_test_interval_min
}

impl Profile {
    /// A field-by-field copy.
    pub fn duplicate(&self) -> (r: Self)
        ensures
            same_profile(r, *self),
    {
        let domains = copy_strings(&self.domains);
        assert(domains@ =~= self.domains@);
        Profile {
            id: self.id.clone(),
            name: self.name.clone(),
            created_at: self.created_at,
            network_fingerprint: self.network_fingerprint.duplicate(),
            domains,
            strategy: self.strategy.duplicate(),
            test_results: self.test_results.duplicate(),
            auto_test_interval_min: self.auto_test_interval_min,
        }
    }
}

/// The position of the default profile: the one the default id names, or the
/// first profile when the id is unset or names none; `-1` when there are no
/// profiles.
pub open spec fn default_index(ps: Seq<Profile>, default_id: Option<Seq<char>>) -> int {
    let k = match default_id {
        Some(d) => index_of(ps, d),
        None => ps.len() as int,
    };
    if k < ps.len() {
        k
    } else if ps.len() > 0 {
        0
    } else {
        -1
    }
}

/// Position of the first profile at or after `i` whose fingerprint matches
/// `cur` (or the end).
pub open spec fn first_matching(ps: Seq<Profile>, cur: NetworkFingerprint, i: int) -> int
    decreases ps.len() - i,
{
    if 0 <= i < ps.len() && !fingerprints_match(ps[i].network_fingerprint, cur) {
        first_matching(ps, cur, i + 1)
    } else {
        i
    }
}

pub proof fn lemma_first_matching(ps: Seq<Profile>, cur: NetworkFingerprint, i: int)
    requires
        0 <= i <= ps.len(),
    ensures
        i <= first_matching(ps, cur, i) <= ps.len(),
        forall|k: int|
            i <= k < first_matching(ps, cur, i) ==> !fingerprints_match(
                #[trigger] ps[k].network_fingerprint,
                cur,
            ),
        first_matching(ps, cur, i) < ps.len() ==> fingerprints_match(
            ps[first_matching(ps, cur, i)].network_fingerprint,
            cur,
        ),
    decreases ps.len() - i,
{
    if i < ps.len() && !fingerprints_match(ps[i].network_fingerprint, cur) {
        lemma_first_matching(ps, cur, i + 1);
    }
}

/// What the background re-test probes: the default profile, its first domain,
/// and whether the voice probe runs too.
#[derive(Debug, Clone)]
pub struct RetestTarget {
    pub id: String,
    pub domain: String,
    pub with_voice: bool,
}

/// Whether any domain names a Discord host (voice is probed for those).
pub open spec fn any_discord(ds: Seq<String>) -> bool {
    exists|i: int| 0 <= i < ds.len() && crate::text::has_substring(ds[i]@, "discord"@)
}

impl ProfileStore {
    /// Rename the first profile whose id is `id`; fails, changing nothing,
    /// when no profile has it.
    pub fn rename(&mut self, id: &str, new_name: &str) -> (r: CoreResult<()>)
        ensures
            final(self).default_id == old(self).default_id,
            !has_id(old(self).profiles@, id@) ==> (r matches Err(CoreError::ProfileNotFound(s))
                && s@ == id@) && final(self).profiles@ == old(self).profiles@,
            has_id(old(self).profiles@, id@) ==> ({
                let k = index_of(old(self).profiles@, id@);
                &&& r is Ok
                &&& final(self).profiles@[k].name@ == new_name@
                &&& final(self).profiles@ == old(self).profiles@.update(
                    k,
                    Profile { name: final(self).profiles@[k].name, ..old(self).profiles@[k] },
                )
            }),
    {
        proof {
            lemma_index_of(self.profiles@, id@);
        }
        match self.get_mut(id) {
            Some(p) => {
                p.name = new_name.to_owned();
                Ok(())
            },
            None => Err(CoreError::ProfileNotFound(id.to_owned())),
        }
    }

    /// Make the profile with id `id` the default; fails, changing nothing,
    /// when no profile has it.
    pub fn set_default(&mut self, id: &str) -> (r: CoreResult<()>)
        ensures
            final(self).profiles@ == old(self).profiles@,
            !has_id(old(self).profiles@, id@) ==> (r matches Err(CoreError::ProfileNotFound(s))
                && s@ == id@) && final(self).default_id == old(self).default_id,
            has_id(old(self).profiles@, id@) ==> r is Ok && opt_view(final(self).default_id)
                == Some(id@),
    {
        if self.get(id).is_none() {
            return Err(CoreError::ProfileNotFound(id.to_owned()));
        }
        self.default_id = Some(id.to_owned());
        Ok(())
    }

    /// The default profile, falling back to the first when no default is set
    /// or the default id names no profile.
    pub fn default_profile(&self) -> (r: Option<&Profile>)
        ensures
            r is None <==> self.profiles@.len() == 0,
            r matches Some(p) ==> *p == self.profiles@[default_index(
                self.profiles@,
                opt_view(self.default_id),
            )],
    {
        let k = match &self.default_id {
            Some(d) => {
                proof {
                    lemma_index_of(self.profiles@, d@);
                }
                self.position(d.as_str())
            },
            None => self.profiles.len(),
        };
        if k < self.profiles.len() {
            Some(&self.profiles[k])
        } else if self.profiles.len() > 0 {
            Some(&self.profiles[0])
        } else {
            None
        }
    }

    /// The first profile whose stored fingerprint matches `current`.
    pub fn matching(&self, current: &NetworkFingerprint) -> (r: Option<&Profile>)
        ensures
            ({
                let k = first_matching(self.profiles@, *current, 0);
                &&& r is Some <==> k < self.profiles@.len()
                &&& r matches Some(p) ==> *p == self.profiles@[k]
            }),
            r is None ==> forall|i: int|
                0 <= i < self.profiles@.len() ==> !fingerprints_match(
                    #[trigger] self.profiles@[i].network_fingerprint,
                    *current,
                ),
    {
        proof {
            lemma_first_matching(self.profiles@, *current, 0);
        }
        let n = self.profiles.len();
        let mut k: usize = 0;
        while k < n && !self.profiles[k].network_fingerprint.matches(current)
            invariant
                n == self.profiles@.len(),
                0 <= k <= n,
                first_matching(self.profiles@, *current, 0) == first_matching(
                    self.profiles@,
                    *current,
                    k as int,
                ),
            decreases n - k,
        {
            k = k + 1;
        }
        if k < n {
            Some(&self.profiles[k])
        } else {
            None
        }
    }

    /// Replace the strategy of the first profile whose id is `id`; fails,
    /// changing nothing, when no profile has it.
    pub fn update_strategy(&mut self, id: &str, strategy: Strategy) -> (r: CoreResult<()>)
        ensures
            final(self).default_id == old(self).default_id,
            !has_id(old(self).profiles@, id@) ==> (r matches Err(CoreError::ProfileNotFound(s))
                && s@ == id@) && final(self).profiles@ == old(self).profiles@,
            has_id(old(self).profiles@, id@) ==> r is Ok && final(self).profiles@
                == old(self).profiles@.update(
                index_of(old(self).profiles@, id@),
                Profile { strategy, ..old(self).profiles@[index_of(old(self).profiles@, id@)] },
            ),
    {
        match self.get_mut(id) {
            Some(p) => {
                p.strategy = strategy;
                Ok(())
            },
            None => Err(CoreError::ProfileNotFound(id.to_owned())),
        }
    }

    /// Replace the domain set of the first profile whose id is `id`; fails,
    /// changing nothing, when no profile has it.
    pub fn update_domains(&mut self, id: &str, domains: Vec<String>) -> (r: CoreResult<()>)
        ensures
            final(self).default_id == old(self).default_id,
            !has_id(old(self).profiles@, id@) ==> (r matches Err(CoreError::ProfileNotFound(s))
                && s@ == id@) && final(self).profiles@ == old(self).profiles@,
            has_id(old(self).profiles@, id@) ==> r is Ok && final(self).profiles@
                == old(self).profiles@.update(
                index_of(old(self).profiles@, id@),
                Profile { domains, ..old(self).profiles@[index_of(old(self).profiles@, id@)] },
            ),
    {
        match self.get_mut(id) {
            Some(p) => {
                p.domains = domains;
                Ok(())
            },
            None => Err(CoreError::ProfileNotFound(id.to_owned())),
        }
    }

    /// Store the result of a check made now as the test results of the first
    /// profile whose id is `id`; nothing changes when no profile has it.
    pub fn record_check(&mut self, id: &str, check: &DomainCheck)
        ensures
            final(self).default_id == old(self).default_id,
            !has_id(old(self).profiles@, id@) ==> final(self).profiles@ == old(self).profiles@,
            has_id(old(self).profiles@, id@) ==> ({
                let k = index_of(old(self).profiles@, id@);
                let t = final(self).profiles@[k].test_results;
                &&& t.text == (check.text is Reachable)
                &&& t.voice == (check.voice matches Some(v) && v is Reachable)
                &&& t.last_checked is Some
                &&& final(self).profiles@ == old(self).profiles@.update(
                    k,
                    Profile { test_results: t, ..old(self).profiles@[k] },
                )
            }),
    {
        proof {
            lemma_index_of(self.profiles@, id@);
        }
        match self.get_mut(id) {
            Some(p) => {
                p.test_results = TestResults::from_check(check, now_utc());
            },
            None => {},
        }
    }

    /// Build a profile for the network `fingerprint` from a strategy that was
    /// just found to work, with the next free id and name and the given check
    /// as its test results, and add it to the store.
    pub fn create_profile(
        &mut self,
        domains: Vec<String>,
        strategy: Strategy,
        check: &DomainCheck,
        fingerprint: NetworkFingerprint,
    ) -> (r: Profile)
        requires
            old(self).profiles@.len() < usize::MAX / 2,
        ensures
            exists|k: nat|
                is_next_free(old(self).profiles@, k) && #[trigger] profile_id(k) == r.id@
                    && r.name@ == profile_name(k),
            r.domains@ == domains@,
            r.strategy == strategy,
            r.network_fingerprint == fingerprint,
            r.test_results.text == (check.text is Reachable),
            r.test_results.voice == (check.voice matches Some(v) && v is Reachable),
            r.test_results.last_checked is Some,
            r.auto_test_interval_min == 30,
            final(self).profiles@.len() == old(self).profiles@.len() + 1,
            final(self).profiles@.drop_last() == old(self).profiles@,
            same_profile(final(self).profiles@.last(), r),
            old(self).default_id is None ==> opt_view(final(self).default_id) == Some(r.id@),
            old(self).default_id is Some ==> final(self).default_id == old(self).default_id,
    {
        let (id, name) = self.next_id();
        let mut profile = Profile::new(id.as_str(), name.as_str(), domains, strategy, fingerprint);
        profile.test_results = TestResults::from_check(check, now_utc());
        let copy = profile.duplicate();
        self.add(profile);
        assert(self.profiles@.drop_last() =~= old(self).profiles@);
        copy
    }

    /// What the background re-test should probe: the default profile's first
    /// domain (voice too when any of its domains names a Discord host). Nothing
    /// when there is no profile, when that domain is empty or missing, or when
    /// the profile was made on another network than `current` (a failing probe
    /// would be expected there).
    pub fn retest_target(&self, current: &NetworkFingerprint) -> (r: Option<RetestTarget>)
        ensures
            ({
                let ps = self.profiles@;
                let di = default_index(ps, opt_view(self.default_id));
                match r {
                    None => di < 0 || ps[di].domains@.len() == 0 || ps[di].domains@[0]@.len() == 0
                        || !fingerprints_match(ps[di].network_fingerprint, *current),
                    Some(t) => di >= 0 && t.id@ == ps[di].id@ && ps[di].domains@.len() > 0
                        && t.domain@ == ps[di].domains@[0]@ && t.domain@.len() > 0 && t.with_voice
                        == any_discord(ps[di].domains@) && fingerprints_match(
                        ps[di].network_fingerprint,
                        *current,
                    ),
                }
            }),
    {
        proof {
            if let Some(d) = opt_view(self.default_id) {
                lemma_index_of(self.profiles@, d);
            }
        }
        let p = match self.default_profile() {
            Some(p) => p,
            None => return None,
        };
        if p.domains.len() == 0 || p.domains[0].as_str().is_empty() {
            return None;
        }
        if !p.network_fingerprint.matches(current) {
            return None;
        }
        let n = p.domains.len();
        let mut with_voice = false;
        let mut i: usize = 0;
        while i < n && !with_voice
            invariant
                n == p.domains@.len(),
                0 <= i <= n,
                with_voice ==> any_discord(p.domains@),
                !with_voice ==> forall|k: int|
                    0 <= k < i ==> !crate::text::has_substring(#[trigger] p.domains@[k]@, "discord"@),
            decreases n - i,
        {
            if crate::text::contains_str(p.domains[i].as_str(), "discord") {
                with_voice = true;
                assert(crate::text::has_substring(p.domains@[i as int]@, "discord"@));
            }
            i = i + 1;
        }
        proof {
            if !with_voice {
                assert(!any_discord(p.domains@));
            }
        }
        Some(RetestTarget { id: p.id.clone(), domain: p.domains[0].clone(), with_voice })
    }
}

/// A profile read from elsewhere, given the next free id of `store` so that it
/// cannot collide with the profiles already there; every other field is kept.
pub fn import_profile(store: &ProfileStore, profile: Profile) -> (r: Profile)
    requires
        store.profiles@.len() < usize::MAX / 2,
    ensures
        exists|k: nat| is_next_free(store.profiles@, k) && #[trigger] profile_id(k) == r.id@,
        r == (Profile { id: r.id, ..profile }),
{
    let (id, _) = store.next_id();
    let mut p = profile;
    p.id = id;
    p
}

/// Where the profile store lives under the user's configuration directory.
pub fn default_store_path(config_dir: &str) -> (r: String)
    ensures
        r@ == crate::paths::unix_join(
            crate::paths::unix_join(config_dir@, "dpi-bypass"@),
            "profiles.json"@,
        ),
{
    crate::paths::join_unix(crate::paths::join_unix(config_dir, "dpi-bypass").as_str(), "profiles.json")
}

/// A profile added under an id that no profile had is found again under that
/// id: `get` after `add` gives back what was added.
pub proof fn added_profile_is_found(ps: Seq<Profile>, p: Profile)
    requires
        !has_id(ps, p.id@),
    ensures
        has_id(ps.push(p), p.id@),
        index_of(ps.push(p), p.id@) == ps.len(),
        ps.push(p)[index_of(ps.push(p), p.id@)] == p,
{
    let qs = ps.push(p);
    assert(qs[ps.len() as int].id@ == p.id@);
    lemma_index_of(qs, p.id@);
    let k = index_of(qs, p.id@);
    if k < ps.len() {
        assert(ps[k].id@ == p.id@);
    }
}

/// Adding a profile leaves every other id where it was: `get` of any other
/// id finds the same profile as before.
pub proof fn add_keeps_other_ids(ps: Seq<Profile>, p: Profile, id: Seq<char>)
    requires
        has_id(ps, id),
    ensures
        has_id(ps.push(p), id),
        index_of(ps.push(p), id) == index_of(ps, id),
        ps.push(p)[index_of(ps.push(p), id)] == ps[index_of(ps, id)],
{
    let qs = ps.push(p);
    lemma_index_of(ps, id);
    lemma_index_of(qs, id);
    let i = index_of(ps, id);
    assert(qs[i].id@ == id);
    let j = index_of(qs, id);
    if j < i {
        assert(ps[j].id@ == id);
    }
}

/// After `set_default(id)` succeeds, `default_profile` is the profile with
/// that id.
pub proof fn set_default_then_default_profile(ps: Seq<Profile>, id: Seq<char>)
    requires
        has_id(ps, id),
    ensures
        default_index(ps, Some(id)) == index_of(ps, id),
        ps[default_index(ps, Some(id))].id@ == id,
{
    lemma_index_of(ps, id);
}

/// After `remove(id)`, no profile has that id, and every other id is still
/// there exactly when it was before.
pub proof fn remove_drops_only_that_id(ps: Seq<Profile>, id: Seq<char>, other: Seq<char>)
    ensures
        !has_id(without_id(ps, id), id),
        other != id ==> (has_id(without_id(ps, id), other) <==> has_id(ps, other)),
    decreases ps.len(),
{
    if ps.len() > 0 {
        let init = ps.drop_last();
        let rest = without_id(init, id);
        remove_drops_only_that_id(init, id, other);
        let w = without_id(ps, id);
        if has_id(w, id) {
            let i = choose|i: int| 0 <= i < w.len() && w[i].id@ == id;
            if i < rest.len() {
                assert(rest[i].id@ == id);
            }
        }
        if other != id {
            if has_id(ps, other) {
                let i = choose|i: int| 0 <= i < ps.len() && ps[i].id@ == other;
                if i < init.len() {
                    assert(init[i].id@ == other);
                    let j = choose|j: int| 0 <= j < rest.len() && rest[j].id@ == other;
                    assert(w[j].id@ == other);
                } else {
                    assert(w[w.len() - 1].id@ == other);
                }
            }
            if has_id(w, other) {
                let j = choose|j: int| 0 <= j < w.len() && w[j].id@ == other;
                if j < rest.len() {
                    assert(rest[j].id@ == other);
                    let i = choose|i: int| 0 <= i < init.len() && init[i].id@ == other;
                    assert(ps[i].id@ == other);
                } else {
                    assert(ps[ps.len() - 1].id@ == other);
                }
            }
        }
    }
}

/// The id handed out next is free: no profile has it, so a profile added
/// under it is found again under it.
pub proof fn next_free_id_is_fresh(ps: Seq<Profile>, k: nat, p: Profile)
    requires
        is_next_free(ps, k),
        p.id@ == profile_id(k),
    ensures
        !has_id(ps, p.id@),
        ps.push(p)[index_of(ps.push(p), p.id@)] == p,
{
    added_profile_is_found(ps, p);
}

} // verus!
