//! The loaded application state: configuration, trusted hosts and the
//! profile search, with the settings it resolves.

use vstd::prelude::*;

use crate::i18n::{resolved_locale, ResolvedLocale};
use crate::model::{AppSettings, ConnectionProfile, LocaleSetting, ThemeSetting};
use crate::storage::{clone_profiles, AppConfig, KnownHostEntry, KnownHosts};
use crate::text::{chars_of, contains, contains_seq, trim, trim_seq};
use crate::theme::{resolved_theme, ResolvedTheme};

verus! {

/// Lexicographic order of character sequences by code point (the order of
/// `str`'s `cmp`, which compares UTF-8 bytes).
pub open spec fn chars_lt(a: Seq<char>, b: Seq<char>) -> bool
    decreases a.len(),
{
    if a.len() == 0 {
        b.len() > 0
    } else if b.len() == 0 {
        false
    } else if a[0] != b[0] {
        (a[0] as int) < (b[0] as int)
    } else {
        chars_lt(a.drop_first(), b.drop_first())
    }
}

/// No sequence comes before itself, and of two sequences at most one comes
/// first.
pub proof fn lemma_chars_lt_asymmetric(a: Seq<char>, b: Seq<char>)
    ensures
        !(chars_lt(a, b) && chars_lt(b, a)),
        !chars_lt(a, a),
    decreases a.len(),
{
    if a.len() > 0 && b.len() > 0 && a[0] == b[0] {
        lemma_chars_lt_asymmetric(a.drop_first(), b.drop_first());
    }
    if a.len() > 0 {
        lemma_chars_lt_asymmetric(a.drop_first(), a.drop_first());
    }
}

/// Of two different sequences one comes first.
pub proof fn lemma_chars_lt_total(a: Seq<char>, b: Seq<char>)
    ensures
        a == b || chars_lt(a, b) || chars_lt(b, a),
    decreases a.len(),
{
    if a.len() > 0 && b.len() > 0 && a[0] == b[0] {
        lemma_chars_lt_total(a.drop_first(), b.drop_first());
        if a.drop_first() == b.drop_first() {
            assert(a.drop_first().len() == a.len() - 1);
            assert(b.drop_first().len() == b.len() - 1);
            assert(a.len() == b.len());
            assert(a =~= b) by {
                assert forall|i: int| 0 <= i < a.len() implies a[i] == b[i] by {
                    if i > 0 {
                        assert(a[i] == a.drop_first()[i - 1]);
                        assert(b[i] == b.drop_first()[i - 1]);
                    }
                }
            }
        }
    } else if a.len() > 0 && b.len() > 0 {
        assert((a[0] as int) != (b[0] as int));
    } else if a.len() == 0 && b.len() == 0 {
        assert(a =~= b);
    }
}

/// The order is transitive.
pub proof fn lemma_chars_lt_transitive(a: Seq<char>, b: Seq<char>, c: Seq<char>)
    requires
        chars_lt(a, b),
        chars_lt(b, c),
    ensures
        chars_lt(a, c),
    decreases a.len(),
{
    if a.len() > 0 && b.len() > 0 && c.len() > 0 && a[0] == b[0] && b[0] == c[0] {
        lemma_chars_lt_transitive(a.drop_first(), b.drop_first(), c.drop_first());
    }
}

/// Whether `a` comes before `b` (`str`'s `cmp` giving `Less`).
pub fn chars_less(a: &str, b: &str) -> (r: bool)
    ensures
        r == chars_lt(a@, b@),
{
    let x = chars_of(a);
    let y = chars_of(b);
    let mut i: usize = 0;
    assert(a@.skip(0) =~= a@);
    assert(b@.skip(0) =~= b@);
    while i < x.len() && i < y.len() && x[i] == y[i]
        invariant
            i <= x@.len(),
            i <= y@.len(),
            x@ == a@,
            y@ == b@,
            chars_lt(a@, b@) == chars_lt(a@.skip(i as int), b@.skip(i as int)),
        decreases x.len() - i,
    {
        proof {
            let s = a@.skip(i as int);
            let t = b@.skip(i as int);
            assert(s[0] == t[0]);
            assert(s.drop_first() =~= a@.skip(i + 1));
            assert(t.drop_first() =~= b@.skip(i + 1));
        }
        i = i + 1;
    }
    let s = Ghost(a@.skip(i as int));
    let t = Ghost(b@.skip(i as int));
    if i == x.len() {
        assert(s@.len() == 0);
        i < y.len()
    } else if i == y.len() {
        assert(t@.len() == 0);
        false
    } else {
        assert(s@[0] == x@[i as int] && t@[0] == y@[i as int]);
        x[i] < y[i]
    }
}


/// What `str::to_lowercase` (full Unicode lower-casing) gives for a text.
pub uninterp spec fn lowercase(s: Seq<char>) -> Seq<char>;

/// Lower-cases a text with `str::to_lowercase`. The result is named
/// `lowercase`, a function of the text alone; the only fact stated of it
/// is that the empty text stays empty.
#[verifier::external_body]
fn to_lowercase(s: &str) -> (r: String)
    ensures
        r@ == lowercase(s@),
        s@.len() == 0 ==> r@.len() == 0,
{
    s.to_lowercase()
}

/// Whether a profile matches a lower-cased search query: an empty query
/// matches every profile, otherwise the query occurs in the lower-cased
/// name, host or user name.
pub open spec fn profile_matches(p: ConnectionProfile, query: Seq<char>) -> bool {
    ||| query.len() == 0
    ||| contains_seq(lowercase(p.name@), query)
    ||| contains_seq(lowercase(p.endpoint.host@), query)
    ||| contains_seq(lowercase(p.username@), query)
}

/// Whether profile `a` sorts strictly before `b`: by lower-cased name, then
/// by id.
pub open spec fn search_lt(a: ConnectionProfile, b: ConnectionProfile) -> bool {
    let ka = lowercase(a.name@);
    let kb = lowercase(b.name@);
    chars_lt(ka, kb) || (ka == kb && a.id.0 < b.id.0)
}

/// Whether profile `a` may come before `b` in the search results.
pub open spec fn search_le(a: ConnectionProfile, b: ConnectionProfile) -> bool {
    !search_lt(b, a)
}

/// The search order is transitive.
pub proof fn lemma_search_lt_transitive(a: ConnectionProfile, b: ConnectionProfile, c: ConnectionProfile)
    requires
        search_lt(a, b),
        search_lt(b, c),
    ensures
        search_lt(a, c),
{
    let ka = lowercase(a.name@);
    let kb = lowercase(b.name@);
    let kc = lowercase(c.name@);
    if chars_lt(ka, kb) && chars_lt(kb, kc) {
        lemma_chars_lt_transitive(ka, kb, kc);
    }
}

/// Of two profiles at most one sorts strictly before the other.
pub proof fn lemma_search_lt_asymmetric(a: ConnectionProfile, b: ConnectionProfile)
    ensures
        !(search_lt(a, b) && search_lt(b, a)),
{
    lemma_chars_lt_asymmetric(lowercase(a.name@), lowercase(b.name@));
}

/// The lower-cased search query of a raw query: trimmed, then lower-cased.
pub open spec fn search_query_of(query: Seq<char>) -> Seq<char> {
    lowercase(trim_seq(query))
}

/// The profiles matching a lower-cased query, in their stored order.
pub open spec fn matching(profiles: Seq<ConnectionProfile>, query: Seq<char>) -> Seq<ConnectionProfile> {
    profiles.filter(|p: ConnectionProfile| profile_matches(p, query))
}

/// The profiles a search with a raw query keeps, in their stored order.
pub open spec fn search_hits(profiles: Seq<ConnectionProfile>, query: Seq<char>) -> Seq<ConnectionProfile> {
    matching(profiles, search_query_of(query))
}

/// Whether no profile of `s` sorts strictly before one ahead of it.
pub open spec fn search_sorted(s: Seq<ConnectionProfile>) -> bool {
    forall|x: int, y: int| 0 <= x < y < s.len() ==> search_le(#[trigger] s[x], #[trigger] s[y])
}

/// The profiles a sequence of references points at.
pub open spec fn referenced(r: Seq<&ConnectionProfile>) -> Seq<ConnectionProfile> {
    r.map_values(|p: &ConnectionProfile| *p)
}

/// A profile found by the search, with its lower-cased name.
struct SearchEntry {
    key: String,
    id: u128,
    index: usize,
}

spec fn entry_fits(e: SearchEntry, profiles: Seq<ConnectionProfile>) -> bool {
    &&& e.index < profiles.len()
    &&& e.key@ == lowercase(profiles[e.index as int].name@)
    &&& e.id == profiles[e.index as int].id.0
}

spec fn entry_profiles(entries: Seq<SearchEntry>, profiles: Seq<ConnectionProfile>) -> Seq<ConnectionProfile> {
    entries.map_values(|e: SearchEntry| profiles[e.index as int])
}

fn entry_less(a: &SearchEntry, b: &SearchEntry) -> (r: bool)
    ensures
        r == (chars_lt(a.key@, b.key@) || (a.key@ == b.key@ && a.id < b.id)),
{
    chars_less(a.key.as_str(), b.key.as_str()) || (a.key == b.key && a.id < b.id)
}

/// The state a loaded configuration opens on: its documents and the
/// search query.
pub struct AppState {
    config: AppConfig,
    known_hosts: KnownHosts,
    search_query: String,
}

/// The application state by its contents.
pub struct AppStateView {
    pub schema_version: u32,
    pub settings: AppSettings,
    pub profiles: Seq<ConnectionProfile>,
    pub known_hosts: Seq<KnownHostEntry>,
    pub search_query: Seq<char>,
}

impl View for AppState {
    type V = AppStateView;

    closed spec fn view(&self) -> AppStateView {
        AppStateView {
            schema_version: self.config.schema_version,
            settings: self.config.settings,
            profiles: self.config.profiles@,
            known_hosts: self.known_hosts.hosts@,
            search_query: self.search_query@,
        }
    }
}

impl AppState {
    /// The state of freshly loaded documents, with an empty search.
    pub fn new(config: AppConfig, known_hosts: KnownHosts) -> (s: Self)
        ensures
            s@.schema_version == config.schema_version,
            s@.settings == config.settings,
            s@.profiles == config.profiles@,
            s@.known_hosts == known_hosts.hosts@,
            s@.search_query.len() == 0,
    {
        AppState { config, known_hosts, search_query: String::new() }
    }

    pub fn settings(&self) -> (r: &AppSettings)
        ensures
            *r == self@.settings,
    {
        &self.config.settings
    }

    pub fn profiles(&self) -> (r: &[ConnectionProfile])
        ensures
            r@ == self@.profiles,
    {
        self.config.profiles.as_slice()
    }

    pub fn known_hosts(&self) -> (r: &[KnownHostEntry])
        ensures
            r@ == self@.known_hosts,
    {
        self.known_hosts.hosts.as_slice()
    }

    /// A copy of the configuration, to be saved.
    pub fn config(&self) -> (r: AppConfig)
        ensures
            r.schema_version == self@.schema_version,
            r.settings == self@.settings,
            r.profiles@ == self@.profiles,
    {
        self.config.clone()
    }

    pub fn set_search_query(&mut self, query: String)
        ensures
            final(self)@ == (AppStateView { search_query: query@, ..old(self)@ }),
    {
        self.search_query = query;
    }

    /// The configuration with another language setting, to be saved before
    /// it replaces the current one.
    pub fn config_with_locale(&self, locale: LocaleSetting) -> (r: AppConfig)
        ensures
            r.schema_version == self@.schema_version,
            r.settings == (AppSettings { locale, ..self@.settings }),
            r.profiles@ == self@.profiles,
    {
        let mut config = self.config.clone();
        config.settings.locale = locale;
        config
    }

    /// The configuration with another theme setting, to be saved before it
    /// replaces the current one.
    pub fn config_with_theme(&self, theme: ThemeSetting) -> (r: AppConfig)
        ensures
            r.schema_version == self@.schema_version,
            r.settings == (AppSettings { theme, ..self@.settings }),
            r.profiles@ == self@.profiles,
    {
        let mut config = self.config.clone();
        config.settings.theme = theme;
        config
    }

    /// Replaces the configuration (after it was saved, or reloaded).
    pub fn replace_config(&mut self, config: AppConfig)
        ensures
            final(self)@ == (AppStateView {
                schema_version: config.schema_version,
                settings: config.settings,
                profiles: config.profiles@,
                ..old(self)@
            }),
    {
        self.config = config;
    }

    /// Replaces the trusted hosts (after they were reloaded).
    pub fn replace_known_hosts(&mut self, known_hosts: KnownHosts)
        ensures
            final(self)@ == (AppStateView { known_hosts: known_hosts.hosts@, ..old(self)@ }),
    {
        self.known_hosts = known_hosts;
    }

    /// The language in effect.
    pub fn resolved_locale(&self, system_locale: Option<&str>) -> (r: ResolvedLocale)
        ensures
            r == resolved_locale(self@.settings.locale, match system_locale {
                Some(s) => Some(s@),
                None => None,
            }),
    {
        ResolvedLocale::resolve(self.config.settings.locale, system_locale)
    }

    /// The theme in effect.
    pub fn resolved_theme(&self, system_is_dark: bool) -> (r: ResolvedTheme)
        ensures
            r == resolved_theme(self@.settings.theme, system_is_dark),
    {
        ResolvedTheme::resolve(self.config.settings.theme, system_is_dark)
    }

    /// The profiles matching the search query, sorted by lower-cased name
    /// and then by id.
    pub fn filtered_profiles(&self) -> (r: Vec<&ConnectionProfile>)
        ensures
            referenced(r@).to_multiset() == search_hits(self@.profiles, self@.search_query).to_multiset(),
            search_sorted(referenced(r@)),
    {
        broadcast use vstd::seq_lib::group_to_multiset_ensures;
        let profiles = &self.config.profiles;
        let ghost all = profiles@;
        let ghost query_view = search_query_of(self.search_query@);
        let trimmed = trim(self.search_query.as_str());
        let query = to_lowercase(trimmed.as_str());
        let query_is_empty = query.as_str().unicode_len() == 0;
        let mut sorted: Vec<SearchEntry> = Vec::new();
        let n = profiles.len();
        let mut i: usize = 0;
        while i < n
            invariant
                n == all.len(),
                profiles@ == all,
                i <= n,
                query@ == query_view,
                query_is_empty == (query_view.len() == 0),
                forall|k: int| 0 <= k < sorted@.len() ==> entry_fits(#[trigger] sorted@[k], all),
                entry_profiles(sorted@, all).to_multiset() == matching(all.take(i as int), query_view).to_multiset(),
                search_sorted(entry_profiles(sorted@, all)),
            decreases n - i,
        {
            let profile = &profiles[i];
            let key = to_lowercase(profile.name.as_str());
            let keep = query_is_empty || contains(key.as_str(), query.as_str())
                || contains(to_lowercase(profile.endpoint.host.as_str()).as_str(), query.as_str())
                || contains(to_lowercase(profile.username.as_str()).as_str(), query.as_str());
            proof {
                reveal_with_fuel(Seq::<_>::filter, 1);
                assert(all.take(i + 1).drop_last() =~= all.take(i as int));
                assert(all.take(i + 1).last() == all[i as int]);
                assert(keep == profile_matches(all[i as int], query_view));
                if keep {
                    assert(matching(all.take(i + 1), query_view) =~= matching(all.take(i as int), query_view).push(all[i as int]));
                } else {
                    assert(matching(all.take(i + 1), query_view) =~= matching(all.take(i as int), query_view));
                }
            }
            if keep {
                let entry = SearchEntry { key, id: profile.id.0, index: i };
                let mut j: usize = 0;
                while j < sorted.len() && !entry_less(&entry, &sorted[j])
                    invariant
                        j <= sorted@.len(),
                        entry_fits(entry, all),
                        forall|k: int| 0 <= k < sorted@.len() ==> entry_fits(#[trigger] sorted@[k], all),
                        forall|k: int| 0 <= k < j ==> search_le(#[trigger] entry_profiles(sorted@, all)[k], all[entry.index as int]),
                    decreases sorted.len() - j,
                {
                    j = j + 1;
                }
                proof {
                    let before = entry_profiles(sorted@, all);
                    let p = all[i as int];
                    let after = entry_profiles(sorted@.insert(j as int, entry), all);
                    assert(after =~= before.insert(j as int, p));
                    assert(after.to_multiset() == before.to_multiset().insert(p)) by {
                        vstd::seq_lib::to_multiset_insert(before, j as int, p);
                    }
                    vstd::seq_lib::to_multiset_build(matching(all.take(i as int), query_view), p);
                    if j < sorted@.len() {
                        assert(search_lt(p, before[j as int]));
                        assert forall|k: int| j <= k < before.len() implies search_le(p, #[trigger] before[k]) by {
                            if search_lt(before[k], p) {
                                lemma_search_lt_asymmetric(p, before[j as int]);
                                if k > j {
                                    lemma_search_lt_transitive(before[k], p, before[j as int]);
                                    assert(search_le(before[j as int], before[k]));
                                }
                            }
                        }
                    }
                    assert forall|x: int, y: int| 0 <= x < y < after.len() implies search_le(#[trigger] after[x], #[trigger] after[y]) by {
                        if x < j && y == j {
                        } else if x == j {
                        } else if x < j && y > j {
                            assert(after[y] == before[y - 1]);
                            assert(search_le(before[x], before[y - 1]));
                        } else if x > j {
                            assert(after[x] == before[x - 1]);
                            assert(after[y] == before[y - 1]);
                        } else {
                            assert(after[x] == before[x]);
                            assert(after[y] == before[y]);
                        }
                    }
                }
                sorted.insert(j, entry);
            }
            i = i + 1;
        }
        let mut r: Vec<&ConnectionProfile> = Vec::new();
        let mut k: usize = 0;
        while k < sorted.len()
            invariant
                k <= sorted@.len(),
                profiles@ == all,
                forall|m: int| 0 <= m < sorted@.len() ==> entry_fits(#[trigger] sorted@[m], all),
                r@.len() == k,
                forall|m: int| 0 <= m < k ==> *(#[trigger] r@[m]) == entry_profiles(sorted@, all)[m],
            decreases sorted.len() - k,
        {
            r.push(&profiles[sorted[k].index]);
            k = k + 1;
        }
        assert(referenced(r@) =~= entry_profiles(sorted@, all));
        assert(all.take(n as int) =~= all);
        r
    }
}


/// A blank search keeps every profile.
pub proof fn law_blank_search_keeps_every_profile(profiles: Seq<ConnectionProfile>, query: Seq<char>)
    requires
        search_query_of(query).len() == 0,
    ensures
        search_hits(profiles, query) == profiles,
    decreases profiles.len(),
{
    reveal_with_fuel(Seq::<_>::filter, 1);
    if profiles.len() > 0 {
        law_blank_search_keeps_every_profile(profiles.drop_last(), query);
        assert(profiles.drop_last().push(profiles.last()) =~= profiles);
    } else {
        assert(search_hits(profiles, query) =~= profiles);
    }
}

/// Where the application keeps its data, when that data could not be read:
/// the application then starts read-only and never overwrites it.
#[derive(Clone, Debug, PartialEq, Eq)]
pub struct RecoveryState {
    pub root: String,
}

/// How loading the stored data ended.
pub enum AppLoadOutcome {
    Ready(AppState),
    Recovery(RecoveryState),
}

} // verus!
