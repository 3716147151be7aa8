//! Synthetic browser profiles and their rotation.
//!
//! A profile carries the "lived-in" state a browser is launched with:
//! visit history, cache and cookie hints, and a consistent fingerprint.
//! The manager holds the pool, rotates through it round-robin, and updates
//! usage metadata. Reading and writing the backing stores is the caller's
//! concern; the on-disk record format lives in [`crate::profile_codec`].

use vstd::prelude::*;

verus! {

use crate::error::ChimeraError;
use crate::text::str_eq;

/// Descriptive metadata of a synthetic profile.
pub struct ProfileMetadata {
    /// Operating system label.
    pub os: String,
    /// Browser label.
    pub browser: String,
    /// Viewport size in pixels.
    pub viewport: (u32, u32),
    /// Time zone name.
    pub timezone: String,
    /// Language tag.
    pub language: String,
    /// Creation timestamp, seconds since the epoch.
    pub created_at: u64,
    /// Last-use timestamp, seconds since the epoch.
    pub last_used: u64,
}

/// One entry of a profile's visit history.
pub struct VisitRecord {
    /// Visited URL.
    pub url: String,
    /// Page title.
    pub title: String,
    /// How often the site was visited.
    pub visit_count: u32,
    /// Last visit timestamp, seconds since the epoch.
    pub last_visit: u64,
    /// Time spent on the site, in seconds.
    pub duration_seconds: u32,
}

/// The fingerprint a profile presents to pages.
pub struct BrowserFingerprint {
    /// User agent string.
    pub user_agent: String,
    /// Screen resolution in pixels.
    pub screen_resolution: (u32, u32),
    /// Color depth in bits.
    pub color_depth: u8,
    /// Time zone offset in minutes.
    pub timezone_offset: i32,
    /// Platform label.
    pub platform: String,
    /// Reported CPU count.
    pub hardware_concurrency: u32,
    /// Reported device memory in GB.
    pub device_memory: u32,
}

/// One synthetic browser profile.
pub struct SyntheticProfile {
    /// Profile id, unique within the pool.
    pub id: String,
    /// Descriptive metadata.
    pub metadata: ProfileMetadata,
    /// Sites this profile has "visited".
    pub visit_history: Vec<VisitRecord>,
    /// Cache size hint in MB.
    pub cache_size_mb: u64,
    /// Cookie count hint.
    pub cookie_count: usize,
    /// Fingerprint the profile presents.
    pub fingerprint: BrowserFingerprint,
    /// Browser user-data directory for this profile.
    pub profile_dir: String,
}

// ---------------------------------------------------------------------------
// Value-level equality of profiles
// ---------------------------------------------------------------------------

/// Two metadata records carry the same values.
pub open spec fn metadata_like(a: &ProfileMetadata, b: &ProfileMetadata) -> bool {
    &&& a.os@ == b.os@
    &&& a.browser@ == b.browser@
    &&& a.viewport == b.viewport
    &&& a.timezone@ == b.timezone@
    &&& a.language@ == b.language@
    &&& a.created_at == b.created_at
    &&& a.last_used == b.last_used
}

/// Two visit records carry the same values.
pub open spec fn record_like(a: &VisitRecord, b: &VisitRecord) -> bool {
    &&& a.url@ == b.url@
    &&& a.title@ == b.title@
    &&& a.visit_count == b.visit_count
    &&& a.last_visit == b.last_visit
    &&& a.duration_seconds == b.duration_seconds
}

/// Two fingerprints carry the same values.
pub open spec fn fingerprint_like(a: &BrowserFingerprint, b: &BrowserFingerprint) -> bool {
    &&& a.user_agent@ == b.user_agent@
    &&& a.screen_resolution == b.screen_resolution
    &&& a.color_depth == b.color_depth
    &&& a.timezone_offset == b.timezone_offset
    &&& a.platform@ == b.platform@
    &&& a.hardware_concurrency == b.hardware_concurrency
    &&& a.device_memory == b.device_memory
}

/// Two profiles carry the same values.
pub open spec fn profile_like(a: &SyntheticProfile, b: &SyntheticProfile) -> bool {
    &&& a.id@ == b.id@
    &&& metadata_like(&a.metadata, &b.metadata)
    &&& a.visit_history@.len() == b.visit_history@.len()
    &&& forall|i: int|
        0 <= i < a.visit_history@.len() ==> record_like(
            &#[trigger] a.visit_history@[i],
            &b.visit_history@[i],
        )
    &&& a.cache_size_mb == b.cache_size_mb
    &&& a.cookie_count == b.cookie_count
    &&& fingerprint_like(&a.fingerprint, &b.fingerprint)
    &&& a.profile_dir@ == b.profile_dir@
}

// ---------------------------------------------------------------------------
// Fingerprint generation
// ---------------------------------------------------------------------------

/// The user agent the fingerprint generator assigns to an OS/browser pair.
pub open spec fn spec_user_agent(os: Seq<char>, browser: Seq<char>) -> Seq<char> {
    if os == "Windows 11"@ && browser == "Chrome 124"@ {
        "Mozilla/5.0 (Windows NT 10.0; Win64; x64) AppleWebKit/537.36 (KHTML, like Gecko) Chrome/124.0.0.0 Safari/537.36"@
    } else if os == "macOS 14"@ && browser == "Safari 17"@ {
        "Mozilla/5.0 (Macintosh; Intel Mac OS X 14_0) AppleWebKit/605.1.15 (KHTML, like Gecko) Version/17.0 Safari/605.1.15"@
    } else if os == "Linux"@ && browser == "Firefox 120"@ {
        "Mozilla/5.0 (X11; Linux x86_64; rv:120.0) Gecko/20100101 Firefox/120.0"@
    } else {
        "Mozilla/5.0 (Windows NT 10.0; Win64; x64) AppleWebKit/537.36"@
    }
}

/// The fingerprint the generator assigns: the matching user agent, the
/// viewport as resolution, and fixed consumer-hardware values.
pub open spec fn generated_fingerprint(
    f: &BrowserFingerprint,
    os: Seq<char>,
    browser: Seq<char>,
    viewport: (u32, u32),
) -> bool {
    &&& f.user_agent@ == spec_user_agent(os, browser)
    &&& f.screen_resolution == viewport
    &&& f.color_depth == 24
    &&& f.timezone_offset == -300
    &&& f.platform@ == os
    &&& f.hardware_concurrency == 8
    &&& f.device_memory == 8
}

/// A profile as the default-profile builder creates it.
pub open spec fn is_created_profile(
    p: &SyntheticProfile,
    id: Seq<char>,
    os: Seq<char>,
    browser: Seq<char>,
    viewport: (u32, u32),
    now: u64,
) -> bool {
    &&& p.id@ == id
    &&& p.metadata.os@ == os
    &&& p.metadata.browser@ == browser
    &&& p.metadata.viewport == viewport
    &&& p.metadata.timezone@ == "America/New_York"@
    &&& p.metadata.language@ == "en-US"@
    &&& p.metadata.created_at == now - 2592000
    &&& p.metadata.last_used == now
    &&& p.visit_history@.len() == 3
    &&& p.visit_history@[0].url@ == "https://www.youtube.com"@
    &&& p.visit_history@[0].title@ == "YouTube"@
    &&& p.visit_history@[0].visit_count == 45
    &&& p.visit_history@[0].last_visit == now - 86400
    &&& p.visit_history@[0].duration_seconds == 1200
    &&& p.visit_history@[1].url@ == "https://www.reddit.com"@
    &&& p.visit_history@[1].title@ == "Reddit"@
    &&& p.visit_history@[1].visit_count == 32
    &&& p.visit_history@[1].last_visit == now - 172800
    &&& p.visit_history@[1].duration_seconds == 900
    &&& p.visit_history@[2].url@ == "https://www.cnn.com"@
    &&& p.visit_history@[2].title@ == "CNN"@
    &&& p.visit_history@[2].visit_count == 18
    &&& p.visit_history@[2].last_visit == now - 259200
    &&& p.visit_history@[2].duration_seconds == 600
    &&& p.cache_size_mb == 500
    &&& p.cookie_count == 42
    &&& generated_fingerprint(&p.fingerprint, os, browser, viewport)
    &&& p.profile_dir@ == "/tmp/chimera-profiles/"@ + id
}

// ---------------------------------------------------------------------------
// Rotation arithmetic (the fairness law of round-robin rotation)
// ---------------------------------------------------------------------------

/// Index picked by the `j`-th rotation after starting index `s`, over a
/// pool of `m` profiles.
pub open spec fn rotation_pick(s: nat, j: nat, m: nat) -> nat {
    (((s + j) as int) % (m as int)) as nat
}

/// How many of the first `k` rotations starting at `s` pick index `i`.
pub open spec fn rotation_visits(s: nat, k: nat, m: nat, i: nat) -> nat
    decreases k,
{
    if k == 0 {
        0
    } else {
        rotation_visits(s, (k - 1) as nat, m, i) + if rotation_pick(s, (k - 1) as nat, m) == i {
            1nat
        } else {
            0nat
        }
    }
}

/// Splitting a run of rotations: the second part behaves as a run that
/// starts `a` rotations later.
proof fn lemma_rotation_visits_split(s: nat, a: nat, b: nat, m: nat, i: nat)
    ensures
        rotation_visits(s, a + b, m, i) == rotation_visits(s, a, m, i) + rotation_visits(
            (s + a) as nat,
            b,
            m,
            i,
        ),
    decreases b,
{
    if b == 0 {
    } else {
        lemma_rotation_visits_split(s, a, (b - 1) as nat, m, i);
        assert(rotation_pick(s, (a + b - 1) as nat, m) == rotation_pick(
            (s + a) as nat,
            (b - 1) as nat,
            m,
        ));
    }
}

/// A run that contains a pick of `i` counts at least one visit.
proof fn lemma_rotation_hit(s: nat, k: nat, m: nat, i: nat, j: nat)
    requires
        j < k,
        rotation_pick(s, j, m) == i,
    ensures
        rotation_visits(s, k, m, i) >= 1,
    decreases k,
{
    if j == k - 1 {
    } else {
        lemma_rotation_hit(s, (k - 1) as nat, m, i, j);
    }
}

/// Within any `m` consecutive rotations, index `i` is picked at least once.
proof fn lemma_rotation_cycle_hits(s: nat, m: nat, i: nat)
    requires
        0 < m,
        i < m,
    ensures
        rotation_visits(s, m, m, i) >= 1,
{
    let r = (s as int) % (m as int);
    vstd::arithmetic::div_mod::lemma_mod_division_less_than_divisor(s as int, m as int);
    let j: nat = if i >= r {
        (i - r) as nat
    } else {
        (i + m - r) as nat
    };
    assert(j < m);
    assert(rotation_pick(s, j, m) == i) by {
        let q = (s as int) / (m as int);
        vstd::arithmetic::div_mod::lemma_fundamental_div_mod(s as int, m as int);
        assert(s as int == q * (m as int) + r);
        if i >= r {
            assert(s + j == q * (m as int) + i);
            vstd::arithmetic::div_mod::lemma_mod_multiples_vanish(q, i as int, m as int);
            vstd::arithmetic::div_mod::lemma_small_mod(i, m);
        } else {
            assert(s + j == (q + 1) * (m as int) + i) by {
                assert((q + 1) * (m as int) == q * (m as int) + m) by (nonlinear_arith);
            }
            vstd::arithmetic::div_mod::lemma_mod_multiples_vanish(q + 1, i as int, m as int);
            vstd::arithmetic::div_mod::lemma_small_mod(i, m);
        }
    }
    lemma_rotation_hit(s, m, m, i, j);
}

/// Round-robin fairness: over `k` rotations against a pool of `m` profiles,
/// every index below `m` is picked at least `k / m` times, wherever the
/// rotation starts.
pub proof fn lemma_rotation_fairness(s: nat, k: nat, m: nat, i: nat)
    requires
        0 < m,
        i < m,
    ensures
        rotation_visits(s, k, m, i) >= k / m,
    decreases k,
{
    if k < m {
        assert(k / m == 0) by {
            vstd::arithmetic::div_mod::lemma_basic_div(k as int, m as int);
        }
    } else {
        lemma_rotation_cycle_hits(s, m, i);
        lemma_rotation_visits_split(s, m, (k - m) as nat, m, i);
        lemma_rotation_fairness((s + m) as nat, (k - m) as nat, m, i);
        assert(k / m == ((k - m) as nat) / m + 1) by {
            vstd::arithmetic::div_mod::lemma_div_plus_one((k - m) as int, m as int);
        }
    }
}

// ---------------------------------------------------------------------------
// Lookup by id
// ---------------------------------------------------------------------------

/// First position of a profile with the given id, if any.
pub open spec fn spec_find(profiles: Seq<SyntheticProfile>, id: Seq<char>) -> Option<int>
    decreases profiles.len(),
{
    if profiles.len() == 0 {
        None
    } else if profiles[0].id@ == id {
        Some(0int)
    } else {
        match spec_find(profiles.drop_first(), id) {
            Some(j) => Some(j + 1),
            None => None,
        }
    }
}

/// What `spec_find` returns is a position holding the id, and `None`
/// means the id occurs nowhere.
pub proof fn lemma_spec_find(profiles: Seq<SyntheticProfile>, id: Seq<char>)
    ensures
        match spec_find(profiles, id) {
            Some(j) => 0 <= j < profiles.len() && profiles[j].id@ == id,
            None => forall|j: int| 0 <= j < profiles.len() ==> (#[trigger] profiles[j]).id@ != id,
        },
    decreases profiles.len(),
{
    if profiles.len() == 0 {
    } else if profiles[0].id@ == id {
    } else {
        lemma_spec_find(profiles.drop_first(), id);
        match spec_find(profiles.drop_first(), id) {
            Some(j) => {
                assert(profiles.drop_first()[j] == profiles[j + 1]);
            },
            None => {
                assert forall|j: int| 0 <= j < profiles.len() implies (#[trigger] profiles[j]).id@
                    != id by {
                    if j > 0 {
                        assert(profiles.drop_first()[j - 1] == profiles[j]);
                    }
                }
            },
        }
    }
}

/// The first position bearing the id is what `spec_find` returns.
proof fn lemma_spec_find_at(profiles: Seq<SyntheticProfile>, id: Seq<char>, j: int)
    requires
        0 <= j < profiles.len(),
        profiles[j].id@ == id,
        forall|t: int| 0 <= t < j ==> (#[trigger] profiles[t]).id@ != id,
    ensures
        spec_find(profiles, id) == Some(j),
    decreases j,
{
    if j == 0 {
    } else {
        assert(profiles[0].id@ != id);
        assert(profiles.drop_first()[j - 1] == profiles[j]);
        assert(forall|t: int|
            0 <= t < j - 1 ==> #[trigger] profiles.drop_first()[t] == profiles[t + 1]);
        lemma_spec_find_at(profiles.drop_first(), id, j - 1);
    }
}

/// An id that occurs nowhere is not found.
proof fn lemma_spec_find_none(profiles: Seq<SyntheticProfile>, id: Seq<char>)
    requires
        forall|t: int| 0 <= t < profiles.len() ==> (#[trigger] profiles[t]).id@ != id,
    ensures
        spec_find(profiles, id) is None,
    decreases profiles.len(),
{
    if profiles.len() == 0 {
    } else {
        assert(forall|t: int|
            0 <= t < profiles.drop_first().len() ==> #[trigger] profiles.drop_first()[t]
                == profiles[t + 1]);
        lemma_spec_find_none(profiles.drop_first(), id);
    }
}

// ---------------------------------------------------------------------------
// The manager
// ---------------------------------------------------------------------------

/// Manager of the profile pool: filesystem fallback location, the loaded
/// pool, the rotation cursor, and the optional shared-store URL.
pub struct IdentityGrafting {
    /// Directory of the filesystem snapshot.
    pub profiles_dir: String,
    /// The loaded pool.
    pub profiles: Vec<SyntheticProfile>,
    /// Round-robin rotation cursor.
    pub rotation_index: usize,
    /// Shared key-value store URL, when swarm sharing is configured.
    pub redis_url: Option<String>,
}

impl IdentityGrafting {
    /// Create an empty manager. The caller loads the pool from storage and
    /// installs it with [`Self::install_profile`], or falls back to
    /// [`Self::create_default_profiles`].
    pub fn new(profiles_dir: String, redis_url: Option<String>) -> (r: Self)
        ensures
            r.profiles@.len() == 0,
            r.rotation_index == 0,
            r.profiles_dir@ == profiles_dir@,
            r.redis_url == redis_url,
    {
        IdentityGrafting { profiles_dir, profiles: Vec::new(), rotation_index: 0, redis_url }
    }

    /// Find the position of a profile by id.
    fn find_index(&self, id: &str) -> (r: Option<usize>)
        ensures
            match r {
                Some(j) => spec_find(self.profiles@, id@) == Some(j as int),
                None => spec_find(self.profiles@, id@) is None,
            },
    {
        let n = self.profiles.len();
        let mut j: usize = 0;
        while j < n
            invariant
                n == self.profiles@.len(),
                j <= n,
                forall|t: int| 0 <= t < j ==> (#[trigger] self.profiles@[t]).id@ != id@,
            decreases n - j,
        {
            if str_eq(self.profiles[j].id.as_str(), id) {
                proof {
                    lemma_spec_find_at(self.profiles@, id@, j as int);
                }
                return Some(j);
            }
            j += 1;
        }
        proof {
            lemma_spec_find_none(self.profiles@, id@);
        }
        None
    }

    /// Install a profile: replace the entry with the same id, or append.
    pub fn install_profile(&mut self, p: SyntheticProfile)
        ensures
            final(self).profiles_dir == old(self).profiles_dir,
            final(self).rotation_index == old(self).rotation_index,
            final(self).redis_url == old(self).redis_url,
            match spec_find(old(self).profiles@, p.id@) {
                Some(j) => final(self).profiles@ =~= old(self).profiles@.update(j, p),
                None => final(self).profiles@ =~= old(self).profiles@.push(p),
            },
    {
        let found = self.find_index(p.id.as_str());
        match found {
            Some(j) => {
                proof {
                    lemma_spec_find(self.profiles@, p.id@);
                }
                self.profiles.set(j, p);
            },
            None => {
                self.profiles.push(p);
            },
        }
    }

    /// Get a profile: by id when one is given, else by round-robin
    /// rotation, which advances the cursor by one.
    pub fn get_profile(&mut self, profile_id: Option<&str>) -> (r: Result<
        &SyntheticProfile,
        ChimeraError,
    >)
        requires
            old(self).rotation_index < usize::MAX,
        ensures
            final(self).profiles == old(self).profiles,
            final(self).profiles_dir == old(self).profiles_dir,
            final(self).redis_url == old(self).redis_url,
            match profile_id {
                Some(id) => {
                    &&& final(self).rotation_index == old(self).rotation_index
                    &&& match spec_find(old(self).profiles@, id@) {
                        Some(j) => r matches Ok(p) && *p == old(self).profiles@[j],
                        None => r is Err,
                    }
                },
                None => {
                    if old(self).profiles@.len() == 0 {
                        r is Err && final(self).rotation_index == old(self).rotation_index
                    } else {
                        &&& final(self).rotation_index == old(self).rotation_index + 1
                        &&& (r matches Ok(p) && *p == old(self).profiles@[rotation_pick(
                            old(self).rotation_index as nat,
                            0,
                            old(self).profiles@.len(),
                        ) as int])
                    }
                },
            },
    {
        match profile_id {
            Some(id) => {
                match self.find_index(id) {
                    Some(j) => {
                        proof {
                            lemma_spec_find(self.profiles@, id@);
                        }
                        Ok(&self.profiles[j])
                    },
                    None => Err(ChimeraError::Profile(String::from_str(id))),
                }
            },
            None => {
                let m = self.profiles.len();
                if m == 0 {
                    return Err(ChimeraError::Profile(String::from_str("no profiles available")));
                }
                let index = self.rotation_index % m;
                proof {
                    vstd::arithmetic::div_mod::lemma_mod_division_less_than_divisor(
                        self.rotation_index as int,
                        m as int,
                    );
                }
                self.rotation_index = self.rotation_index + 1;
                Ok(&self.profiles[index])
            },
        }
    }

    /// The user-data directory of the profile with the given id.
    pub fn get_profile_dir(&self, profile_id: &str) -> (r: Result<String, ChimeraError>)
        ensures
            match spec_find(self.profiles@, profile_id@) {
                Some(j) => r matches Ok(d) && d@ == self.profiles@[j].profile_dir@,
                None => r is Err,
            },
    {
        match self.find_index(profile_id) {
            Some(j) => {
                proof {
                    lemma_spec_find(self.profiles@, profile_id@);
                }
                Ok(self.profiles[j].profile_dir.clone())
            },
            None => Err(ChimeraError::Profile(String::from_str(profile_id))),
        }
    }

    /// Update a profile after use: refresh its last-use timestamp and
    /// advance its cache and cookie hints, saturating at the maximum.
    /// A missing id is not an error.
    pub fn update_profile(&mut self, profile_id: &str, now: u64) -> (r: Result<(), ChimeraError>)
        ensures
            r is Ok,
            final(self).profiles_dir == old(self).profiles_dir,
            final(self).rotation_index == old(self).rotation_index,
            final(self).redis_url == old(self).redis_url,
            match spec_find(old(self).profiles@, profile_id@) {
                None => final(self).profiles == old(self).profiles,
                Some(j) => {
                    &&& final(self).profiles@.len() == old(self).profiles@.len()
                    &&& forall|t: int|
                        0 <= t < old(self).profiles@.len() && t != j ==> final(self).profiles@[t]
                            == old(self).profiles@[t]
                    &&& final(self).profiles@[j].id == old(self).profiles@[j].id
                    &&& final(self).profiles@[j].metadata.os == old(self).profiles@[j].metadata.os
                    &&& final(self).profiles@[j].metadata.browser == old(
                        self,
                    ).profiles@[j].metadata.browser
                    &&& final(self).profiles@[j].metadata.viewport == old(
                        self,
                    ).profiles@[j].metadata.viewport
                    &&& final(self).profiles@[j].metadata.timezone == old(
                        self,
                    ).profiles@[j].metadata.timezone
                    &&& final(self).profiles@[j].metadata.language == old(
                        self,
                    ).profiles@[j].metadata.language
                    &&& final(self).profiles@[j].metadata.created_at == old(
                        self,
                    ).profiles@[j].metadata.created_at
                    &&& final(self).profiles@[j].metadata.last_used == now
                    &&& final(self).profiles@[j].visit_history == old(
                        self,
                    ).profiles@[j].visit_history
                    &&& final(self).profiles@[j].cache_size_mb == if old(
                        self,
                    ).profiles@[j].cache_size_mb < u64::MAX {
                        old(self).profiles@[j].cache_size_mb + 1
                    } else {
                        u64::MAX as int
                    }
                    &&& final(self).profiles@[j].cookie_count == if old(
                        self,
                    ).profiles@[j].cookie_count < usize::MAX {
                        old(self).profiles@[j].cookie_count + 1
                    } else {
                        usize::MAX as int
                    }
                    &&& final(self).profiles@[j].fingerprint == old(self).profiles@[j].fingerprint
                    &&& final(self).profiles@[j].profile_dir == old(self).profiles@[j].profile_dir
                },
            },
    {
        let found = self.find_index(profile_id);
        match found {
            Some(j) => {
                proof {
                    lemma_spec_find(self.profiles@, profile_id@);
                }
                let mut p = self.profiles.remove(j);
                p.metadata.last_used = now;
                p.cache_size_mb = if p.cache_size_mb < u64::MAX {
                    p.cache_size_mb + 1
                } else {
                    p.cache_size_mb
                };
                p.cookie_count = if p.cookie_count < usize::MAX {
                    p.cookie_count + 1
                } else {
                    p.cookie_count
                };
                self.profiles.insert(j, p);
                proof {
                    assert(final(self).profiles@.len() == old(self).profiles@.len());
                }
                Ok(())
            },
            None => Ok(()),
        }
    }

    /// Fill an empty pool with the three default profiles.
    pub fn create_default_profiles(&mut self, now: u64) -> (r: Result<(), ChimeraError>)
        requires
            old(self).profiles@.len() == 0,
            now >= 2592000,
        ensures
            r is Ok,
            final(self).profiles_dir == old(self).profiles_dir,
            final(self).rotation_index == old(self).rotation_index,
            final(self).redis_url == old(self).redis_url,
            final(self).profiles@.len() == 3,
            is_created_profile(
                &final(self).profiles@[0],
                "windows_chrome_124"@,
                "Windows 11"@,
                "Chrome 124"@,
                (1920u32, 1080u32),
                now,
            ),
            is_created_profile(
                &final(self).profiles@[1],
                "mac_safari_17"@,
                "macOS 14"@,
                "Safari 17"@,
                (2560u32, 1600u32),
                now,
            ),
            is_created_profile(
                &final(self).profiles@[2],
                "linux_firefox_120"@,
                "Linux"@,
                "Firefox 120"@,
                (1920u32, 1080u32),
                now,
            ),
    {
        let p0 = Self::create_profile("windows_chrome_124", "Windows 11", "Chrome 124", (1920, 1080), now);
        let p1 = Self::create_profile("mac_safari_17", "macOS 14", "Safari 17", (2560, 1600), now);
        let p2 = Self::create_profile("linux_firefox_120", "Linux", "Firefox 120", (1920, 1080), now);
        self.profiles.push(p0);
        self.profiles.push(p1);
        self.profiles.push(p2);
        Ok(())
    }

    /// Build one synthetic profile with the default visit history, hints,
    /// and a fingerprint consistent with the OS/browser pair.
    pub fn create_profile(id: &str, os: &str, browser: &str, viewport: (u32, u32), now: u64) -> (p:
        SyntheticProfile)
        requires
            now >= 2592000,
        ensures
            is_created_profile(&p, id@, os@, browser@, viewport, now),
    {
        let mut visit_history: Vec<VisitRecord> = Vec::new();
        visit_history.push(
            VisitRecord {
                url: String::from_str("https://www.youtube.com"),
                title: String::from_str("YouTube"),
                visit_count: 45,
                last_visit: now - 86400,
                duration_seconds: 1200,
            },
        );
        visit_history.push(
            VisitRecord {
                url: String::from_str("https://www.reddit.com"),
                title: String::from_str("Reddit"),
                visit_count: 32,
                last_visit: now - 172800,
                duration_seconds: 900,
            },
        );
        visit_history.push(
            VisitRecord {
                url: String::from_str("https://www.cnn.com"),
                title: String::from_str("CNN"),
                visit_count: 18,
                last_visit: now - 259200,
                duration_seconds: 600,
            },
        );
        let mut profile_dir = String::from_str("/tmp/chimera-profiles/");
        profile_dir.append(id);
        SyntheticProfile {
            id: String::from_str(id),
            metadata: ProfileMetadata {
                os: String::from_str(os),
                browser: String::from_str(browser),
                viewport,
                timezone: String::from_str("America/New_York"),
                language: String::from_str("en-US"),
                created_at: now - 2592000,
                last_used: now,
            },
            visit_history,
            cache_size_mb: 500,
            cookie_count: 42,
            fingerprint: Self::generate_fingerprint(os, browser, viewport),
            profile_dir,
        }
    }

    /// Build the fingerprint consistent with an OS/browser pair.
    pub fn generate_fingerprint(os: &str, browser: &str, viewport: (u32, u32)) -> (f:
        BrowserFingerprint)
        ensures
            generated_fingerprint(&f, os@, browser@, viewport),
    {
        let user_agent: &str = if str_eq(os, "Windows 11") && str_eq(browser, "Chrome 124") {
            "Mozilla/5.0 (Windows NT 10.0; Win64; x64) AppleWebKit/537.36 (KHTML, like Gecko) Chrome/124.0.0.0 Safari/537.36"
        } else if str_eq(os, "macOS 14") && str_eq(browser, "Safari 17") {
            "Mozilla/5.0 (Macintosh; Intel Mac OS X 14_0) AppleWebKit/605.1.15 (KHTML, like Gecko) Version/17.0 Safari/605.1.15"
        } else if str_eq(os, "Linux") && str_eq(browser, "Firefox 120") {
            "Mozilla/5.0 (X11; Linux x86_64; rv:120.0) Gecko/20100101 Firefox/120.0"
        } else {
            "Mozilla/5.0 (Windows NT 10.0; Win64; x64) AppleWebKit/537.36"
        };
        BrowserFingerprint {
            user_agent: String::from_str(user_agent),
            screen_resolution: viewport,
            color_depth: 24,
            timezone_offset: -300,
            platform: String::from_str(os),
            hardware_concurrency: 8,
            device_memory: 8,
        }
    }
}

} // verus!
