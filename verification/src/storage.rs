//! Browser storage as the Storage domain shows it: local and session
//! storage per origin, cookies, IndexedDB databases and a usage estimate.

use vstd::prelude::*;
use crate::protocol::ProtocolError;
use crate::str_map::StrMap;
use crate::text::{chars_contain, chars_of, contains_seq, owned, str_eq};

verus! {

/// The number of UTF-8 bytes of a string.
pub open spec fn byte_len(s: Seq<char>) -> nat {
    vstd::utf8::encode_utf8(s).len()
}

/// The byte length of a string.
pub fn str_byte_len(s: &str) -> (n: usize)
    ensures
        n == byte_len(s@),
{
    s.as_bytes().len()
}

/// One storage entry.
#[derive(Debug)]
pub struct StorageItem {
    pub key: String,
    pub value: String,
}

/// Which storage area.
#[derive(Debug, Clone, Copy, PartialEq, Eq, Structural)]
pub enum StorageAreaType {
    LocalStorage,
    SessionStorage,
}

/// The SameSite attribute of a cookie.
#[derive(Debug, Clone, Copy, PartialEq, Eq, Structural)]
pub enum CookieSameSite {
    Strict,
    Lax,
    /// `SameSite=None`: sent with cross-site requests.
    NoRestriction,
}

/// The priority of a cookie.
#[derive(Debug, Clone, Copy, PartialEq, Eq, Structural)]
pub enum CookiePriority {
    Low,
    Medium,
    High,
}

/// The scheme a cookie was set from.
#[derive(Debug, Clone, Copy, PartialEq, Eq, Structural)]
pub enum CookieSourceScheme {
    Unset,
    NonSecure,
    Secure,
}

/// A cookie.
#[derive(Debug)]
pub struct Cookie {
    pub name: String,
    pub value: String,
    pub domain: String,
    pub path: String,
    /// Bits of the expiry time in seconds since the epoch.
    pub expires_bits: Option<u64>,
    pub size: u32,
    pub http_only: bool,
    pub secure: bool,
    pub session: bool,
    pub same_site: Option<CookieSameSite>,
    pub priority: Option<CookiePriority>,
    pub same_party: bool,
    pub source_scheme: Option<CookieSourceScheme>,
    pub source_port: Option<u16>,
}

/// The kind of an IndexedDB key path.
#[derive(Debug, Clone, Copy, PartialEq, Eq, Structural)]
pub enum KeyPathType {
    Null,
    String,
    Array,
}

/// An IndexedDB key path.
#[derive(Debug)]
pub struct KeyPath {
    pub key_path_type: KeyPathType,
    pub string: Option<String>,
    pub array: Option<Vec<String>>,
}

/// An IndexedDB index.
#[derive(Debug)]
pub struct IndexInfo {
    pub name: String,
    pub key_path: KeyPath,
    pub unique: bool,
    pub multi_entry: bool,
}

/// An IndexedDB object store.
#[derive(Debug)]
pub struct ObjectStoreInfo {
    pub name: String,
    pub key_path: KeyPath,
    pub auto_increment: bool,
    pub indexes: Vec<IndexInfo>,
}

/// An IndexedDB database.
#[derive(Debug)]
pub struct DatabaseInfo {
    pub name: String,
    pub version: u64,
    pub object_stores: Vec<ObjectStoreInfo>,
}

/// A cache of the Cache Storage API.
#[derive(Debug)]
pub struct CacheInfo {
    pub cache_name: String,
    pub security_origin: String,
    pub cache_id: Option<String>,
}

/// One stored IndexedDB record; keys and value are JSON texts.
#[derive(Debug)]
pub struct DataEntry {
    pub key: String,
    pub primary_key: String,
    pub value: String,
}

/// An origin with storage, its kinds of storage, quota and usage.
#[derive(Debug)]
pub struct StorageOrigin {
    pub security_origin: String,
    pub storage_types: Vec<String>,
    pub quota: u64,
    pub usage: u64,
}

/// The parameters of `setCookie` (the path defaults to `/`).
#[derive(Debug)]
pub struct SetCookieParams {
    pub name: String,
    pub value: String,
    pub domain: String,
    pub path: String,
    pub expires_bits: Option<u64>,
    pub http_only: bool,
    pub secure: bool,
    pub same_site: Option<CookieSameSite>,
}

/// The usage estimate of an origin, in bytes.
#[derive(Debug, Clone, Copy, PartialEq, Eq, Structural)]
pub struct UsageAndQuota {
    pub usage: u128,
    pub quota: u64,
    pub local_usage: u128,
    pub session_usage: u128,
}

/// A byte count, saturating at the largest `u128`.
pub open spec fn sat(x: int) -> u128 {
    if x > u128::MAX {
        u128::MAX
    } else {
        x as u128
    }
}

/// The entries of one origin as a map from key to value.
pub open spec fn inner_view(inner: StrMap<String>) -> Map<Seq<char>, Seq<char>> {
    inner@.map_values(|s: String| s@)
}

/// A storage area as maps from origin to key to value.
pub open spec fn area_view(m: StrMap<StrMap<String>>) -> Map<Seq<char>, Map<Seq<char>, Seq<char>>> {
    m@.map_values(|inner: StrMap<String>| inner_view(inner))
}

proof fn lemma_area_replace(
    raw0: Map<Seq<char>, StrMap<String>>,
    raw1: Map<Seq<char>, StrMap<String>>,
    origin: Seq<char>,
    inner: StrMap<String>,
)
    requires
        raw1 == raw0.remove(origin).insert(origin, inner),
    ensures
        raw1.map_values(|i: StrMap<String>| inner_view(i)) =~= raw0.map_values(|i: StrMap<String>| inner_view(i)).insert(
            origin,
            inner_view(inner),
        ),
{
}

/// The bytes of the keys and values of a list of entries (whole sums
/// are computed, so a count past the largest `u128` saturates).
pub open spec fn entry_bytes(keys: Seq<Seq<char>>, values: Seq<String>) -> int
    decreases keys.len(),
{
    if keys.len() == 0 || values.len() < keys.len() {
        0
    } else {
        entry_bytes(keys.drop_last(), values.take(keys.len() - 1)) + byte_len(keys.last())
            + byte_len(values[keys.len() - 1]@)
    }
}

/// Whether a cookie is the one named `name` for `domain`.
pub open spec fn same_cookie(c: Cookie, name: Seq<char>, domain: Seq<char>) -> bool {
    c.name@ == name && c.domain@ == domain
}

/// The cookies other than the one named `name` for `domain`, in order.
pub open spec fn cookies_without(cs: Seq<Cookie>, name: Seq<char>, domain: Seq<char>) -> Seq<Cookie>
    decreases cs.len(),
{
    if cs.len() == 0 {
        Seq::empty()
    } else {
        let rest = cookies_without(cs.drop_last(), name, domain);
        if same_cookie(cs.last(), name, domain) {
            rest
        } else {
            rest.push(cs.last())
        }
    }
}

/// Whether some URL contains the domain.
pub open spec fn url_matches(urls: Seq<Seq<char>>, domain: Seq<char>) -> bool {
    exists|k: int| 0 <= k < urls.len() && contains_seq(#[trigger] urls[k], domain)
}

/// The positions of the cookies whose domain occurs in one of the URLs.
pub open spec fn cookies_for(cs: Seq<Cookie>, urls: Seq<Seq<char>>) -> Seq<int>
    decreases cs.len(),
{
    if cs.len() == 0 {
        Seq::empty()
    } else {
        let rest = cookies_for(cs.drop_last(), urls);
        if url_matches(urls, cs.last().domain@) {
            rest.push(cs.len() - 1)
        } else {
            rest
        }
    }
}

/// The databases not named `name`, in order.
pub open spec fn databases_without(dbs: Seq<DatabaseInfo>, name: Seq<char>) -> Seq<DatabaseInfo>
    decreases dbs.len(),
{
    if dbs.len() == 0 {
        Seq::empty()
    } else {
        let rest = databases_without(dbs.drop_last(), name);
        if dbs.last().name@ == name {
            rest
        } else {
            rest.push(dbs.last())
        }
    }
}

/// The position of the first database named `name`.
pub open spec fn first_database(dbs: Seq<DatabaseInfo>, name: Seq<char>) -> Option<int>
    decreases dbs.len(),
{
    if dbs.len() == 0 {
        None
    } else {
        match first_database(dbs.drop_last(), name) {
            Some(k) => Some(k),
            None => if dbs.last().name@ == name {
                Some(dbs.len() - 1)
            } else {
                None
            },
        }
    }
}

/// The cookie that `setCookie` stores: sized by the bytes of its name and
/// value (truncated to 32 bits), a session cookie without an expiry, of
/// medium priority, from a secure scheme exactly when secure.
pub open spec fn cookie_from(p: SetCookieParams, c: Cookie) -> bool {
    &&& c.name@ == p.name@
    &&& c.value@ == p.value@
    &&& c.domain@ == p.domain@
    &&& c.path@ == p.path@
    &&& c.expires_bits == p.expires_bits
    &&& c.size == ((byte_len(p.name@) + byte_len(p.value@)) % 0x1_0000_0000) as u32
    &&& c.http_only == p.http_only
    &&& c.secure == p.secure
    &&& c.session == p.expires_bits is None
    &&& c.same_site == p.same_site
    &&& c.priority == Some(CookiePriority::Medium)
    &&& !c.same_party
    &&& c.source_scheme == Some(
        if p.secure {
            CookieSourceScheme::Secure
        } else {
            CookieSourceScheme::NonSecure
        },
    )
    &&& c.source_port is None
}

fn string_key_path(s: &str) -> (k: KeyPath)
    ensures
        k.key_path_type == KeyPathType::String,
        k.string matches Some(t) && t@ == s@,
        k.array is None,
{
    KeyPath { key_path_type: KeyPathType::String, string: Some(owned(s)), array: None }
}

/// A key path naming one property.
pub open spec fn string_path(k: KeyPath, property: Seq<char>) -> bool {
    &&& k.key_path_type == KeyPathType::String
    &&& k.string matches Some(t) && t@ == property
    &&& k.array is None
}

/// The sample data a bridge starts with, all for `https://example.com`:
/// local storage `theme=dark`, `language=en-US`, `user_id=12345`; session
/// storage `cart_items=[]`, `session_token=abc123`; one secure, HTTP-only
/// `session=abc123def456` cookie of `example.com` (path `/`, lax, medium
/// priority, from a secure scheme on port 443, 24 bytes, with an expiry);
/// and the `myApp` database at version 1 with an auto-incrementing `users`
/// store keyed by `id` and uniquely indexed `by_email` on `email`. Nothing
/// is cached, and tracking is off.
pub open spec fn sample_state(s: StorageBridgeState) -> bool {
    &&& !s.enabled
    &&& area_view(s.local_storage) == map![
        "https://example.com"@ => map![
            "theme"@ => "dark"@,
            "language"@ => "en-US"@,
            "user_id"@ => "12345"@,
        ],
    ]
    &&& area_view(s.session_storage) == map![
        "https://example.com"@ => map!["cart_items"@ => "[]"@, "session_token"@ => "abc123"@],
    ]
    &&& s.cookies@.len() == 1
    &&& {
        let c = s.cookies@[0];
        &&& c.name@ == "session"@
        &&& c.value@ == "abc123def456"@
        &&& c.domain@ == "example.com"@
        &&& c.path@ == "/"@
        &&& c.expires_bits == Some(0x41D9_DD21_6000_0000u64)
        &&& c.size == 24
        &&& c.http_only
        &&& c.secure
        &&& !c.session
        &&& c.same_site == Some(CookieSameSite::Lax)
        &&& c.priority == Some(CookiePriority::Medium)
        &&& !c.same_party
        &&& c.source_scheme == Some(CookieSourceScheme::Secure)
        &&& c.source_port == Some(443u16)
    }
    &&& s.indexed_db@.dom() == set!["https://example.com"@]
    &&& s.indexed_db@["https://example.com"@]@.len() == 1
    &&& {
        let db = s.indexed_db@["https://example.com"@]@[0];
        &&& db.name@ == "myApp"@
        &&& db.version == 1
        &&& db.object_stores@.len() == 1
        &&& db.object_stores@[0].name@ == "users"@
        &&& string_path(db.object_stores@[0].key_path, "id"@)
        &&& db.object_stores@[0].auto_increment
        &&& db.object_stores@[0].indexes@.len() == 1
        &&& db.object_stores@[0].indexes@[0].name@ == "by_email"@
        &&& string_path(db.object_stores@[0].indexes@[0].key_path, "email"@)
        &&& db.object_stores@[0].indexes@[0].unique
        &&& !db.object_stores@[0].indexes@[0].multi_entry
    }
    &&& s.cache_storage@ == Map::<Seq<char>, Vec<CacheInfo>>::empty()
}

/// The storage state.
#[derive(Debug)]
pub struct StorageBridgeState {
    pub local_storage: StrMap<StrMap<String>>,
    pub session_storage: StrMap<StrMap<String>>,
    pub cookies: Vec<Cookie>,
    pub indexed_db: StrMap<Vec<DatabaseInfo>>,
    pub cache_storage: StrMap<Vec<CacheInfo>>,
    pub enabled: bool,
}

impl StorageBridgeState {
    /// Nothing stored, tracking off.
    pub fn empty() -> (s: Self)
        ensures
            area_view(s.local_storage) == Map::<Seq<char>, Map<Seq<char>, Seq<char>>>::empty(),
            area_view(s.session_storage) == Map::<Seq<char>, Map<Seq<char>, Seq<char>>>::empty(),
            s.cookies@.len() == 0,
            s.indexed_db@ == Map::<Seq<char>, Vec<DatabaseInfo>>::empty(),
            s.cache_storage@ == Map::<Seq<char>, Vec<CacheInfo>>::empty(),
            !s.enabled,
    {
        let s = StorageBridgeState {
            local_storage: StrMap::new(),
            session_storage: StrMap::new(),
            cookies: Vec::new(),
            indexed_db: StrMap::new(),
            cache_storage: StrMap::new(),
            enabled: false,
        };
        proof {
            assert(area_view(s.local_storage) =~= Map::<Seq<char>, Map<Seq<char>, Seq<char>>>::empty());
            assert(area_view(s.session_storage) =~= Map::<Seq<char>, Map<Seq<char>, Seq<char>>>::empty());
        }
        s
    }

    /// The sample data: local storage (theme, language, user id) and
    /// session storage (cart, session token) for `https://example.com`, a
    /// secure session cookie there, and its `myApp` database with a `users`
    /// store indexed by email.
    pub fn with_mock_data() -> (s: Self)
        ensures
            sample_state(s),
            !s.enabled,
            area_view(s.local_storage).contains_key("https://example.com"@),
            area_view(s.local_storage)["https://example.com"@].contains_key("theme"@),
            area_view(s.local_storage)["https://example.com"@].contains_key("language"@),
            area_view(s.local_storage)["https://example.com"@].contains_key("user_id"@),
            area_view(s.session_storage).contains_key("https://example.com"@),
            area_view(s.session_storage)["https://example.com"@].contains_key("cart_items"@),
            area_view(s.session_storage)["https://example.com"@].contains_key("session_token"@),
            s.cookies@.len() == 1,
            s.cookies@[0].name@ == "session"@,
            s.cookies@[0].domain@ == "example.com"@,
            s.indexed_db@.contains_key("https://example.com"@),
            s.indexed_db@["https://example.com"@]@.len() == 1,
            s.indexed_db@["https://example.com"@]@[0].name@ == "myApp"@,
            s.indexed_db@["https://example.com"@]@[0].version == 1,
    {
        let mut s = Self::empty();
        let mut local: StrMap<String> = StrMap::new();
        local.insert(owned("theme"), owned("dark"));
        local.insert(owned("language"), owned("en-US"));
        local.insert(owned("user_id"), owned("12345"));
        s.local_storage.insert(owned("https://example.com"), local);
        let mut session: StrMap<String> = StrMap::new();
        session.insert(owned("cart_items"), owned("[]"));
        session.insert(owned("session_token"), owned("abc123"));
        s.session_storage.insert(owned("https://example.com"), session);
        s.cookies.push(
            Cookie {
                name: owned("session"),
                value: owned("abc123def456"),
                domain: owned("example.com"),
                path: owned("/"),
                expires_bits: Some(0x41D9_DD21_6000_0000),
                size: 24,
                http_only: true,
                secure: true,
                session: false,
                same_site: Some(CookieSameSite::Lax),
                priority: Some(CookiePriority::Medium),
                same_party: false,
                source_scheme: Some(CookieSourceScheme::Secure),
                source_port: Some(443),
            },
        );
        let mut indexes: Vec<IndexInfo> = Vec::new();
        indexes.push(
            IndexInfo {
                name: owned("by_email"),
                key_path: string_key_path("email"),
                unique: true,
                multi_entry: false,
            },
        );
        let mut stores: Vec<ObjectStoreInfo> = Vec::new();
        stores.push(
            ObjectStoreInfo {
                name: owned("users"),
                key_path: string_key_path("id"),
                auto_increment: true,
                indexes,
            },
        );
        let mut dbs: Vec<DatabaseInfo> = Vec::new();
        dbs.push(DatabaseInfo { name: owned("myApp"), version: 1, object_stores: stores });
        s.indexed_db.insert(owned("https://example.com"), dbs);
        proof {
            assert(area_view(s.local_storage) =~= map![
                "https://example.com"@ => map![
                    "theme"@ => "dark"@,
                    "language"@ => "en-US"@,
                    "user_id"@ => "12345"@,
                ],
            ]) by {
                assert(area_view(s.local_storage)["https://example.com"@] =~= map![
                    "theme"@ => "dark"@,
                    "language"@ => "en-US"@,
                    "user_id"@ => "12345"@,
                ]);
            }
            assert(area_view(s.session_storage) =~= map![
                "https://example.com"@ => map!["cart_items"@ => "[]"@, "session_token"@ => "abc123"@],
            ]) by {
                assert(area_view(s.session_storage)["https://example.com"@] =~= map![
                    "cart_items"@ => "[]"@,
                    "session_token"@ => "abc123"@,
                ]);
            }
            assert(s.indexed_db@.dom() =~= set!["https://example.com"@]);
        }
        s
    }
}

/// The Storage domain.
#[derive(Debug)]
pub struct StorageBridge {
    state: StorageBridgeState,
}

impl StorageBridge {
    /// The state.
    pub closed spec fn state_view(&self) -> &StorageBridgeState {
        &self.state
    }

    /// The local or session area.
    pub open spec fn area(&self, a: StorageAreaType) -> Map<Seq<char>, Map<Seq<char>, Seq<char>>> {
        match a {
            StorageAreaType::LocalStorage => area_view(self.state_view().local_storage),
            StorageAreaType::SessionStorage => area_view(self.state_view().session_storage),
        }
    }

    /// The cookies, in the order they were set.
    pub open spec fn cookie_seq(&self) -> Seq<Cookie> {
        self.state_view().cookies@
    }

    /// A bridge over the sample data.
    pub fn new() -> (b: Self)
        ensures
            sample_state(*b.state_view()),
            !b.state_view().enabled,
            b.cookie_seq().len() == 1,
    {
        StorageBridge { state: StorageBridgeState::with_mock_data() }
    }

    /// A bridge over empty storage.
    pub fn empty() -> (b: Self)
        ensures
            !b.state_view().enabled,
            b.area(StorageAreaType::LocalStorage) == Map::<Seq<char>, Map<Seq<char>, Seq<char>>>::empty(),
            b.area(StorageAreaType::SessionStorage) == Map::<Seq<char>, Map<Seq<char>, Seq<char>>>::empty(),
            b.cookie_seq().len() == 0,
            b.state_view().indexed_db@ == Map::<Seq<char>, Vec<DatabaseInfo>>::empty(),
            b.state_view().cache_storage@ == Map::<Seq<char>, Vec<CacheInfo>>::empty(),
    {
        StorageBridge { state: StorageBridgeState::empty() }
    }

    /// The domain's name.
    pub fn name(&self) -> (n: &'static str)
        ensures
            n@ == "StorageBridge"@,
    {
        "StorageBridge"
    }

    /// The state, for inspection.
    pub fn get_state(&self) -> (s: &StorageBridgeState)
        ensures
            s == self.state_view(),
    {
        &self.state
    }

    /// Turns tracking on.
    pub fn enable(&mut self)
        ensures
            final(self).state_view().enabled,
            final(self).cookie_seq() == old(self).cookie_seq(),
            final(self).area(StorageAreaType::LocalStorage) == old(self).area(StorageAreaType::LocalStorage),
            final(self).area(StorageAreaType::SessionStorage) == old(self).area(
                StorageAreaType::SessionStorage,
            ),
    {
        self.state.enabled = true;
    }

    /// Turns tracking off.
    pub fn disable(&mut self)
        ensures
            !final(self).state_view().enabled,
            final(self).cookie_seq() == old(self).cookie_seq(),
            final(self).area(StorageAreaType::LocalStorage) == old(self).area(StorageAreaType::LocalStorage),
            final(self).area(StorageAreaType::SessionStorage) == old(self).area(
                StorageAreaType::SessionStorage,
            ),
    {
        self.state.enabled = false;
    }

    fn area_ref(&self, area: StorageAreaType) -> (r: &StrMap<StrMap<String>>)
        ensures
            area_view(*r) == self.area(area),
    {
        match area {
            StorageAreaType::LocalStorage => &self.state.local_storage,
            StorageAreaType::SessionStorage => &self.state.session_storage,
        }
    }

    /// The entries an origin keeps in an area (none for an unknown origin),
    /// in the order their keys were first set.
    pub fn get_storage_items(&self, security_origin: &str, area: StorageAreaType) -> (r: Vec<StorageItem>)
        ensures
            self.area(area).contains_key(security_origin@) ==> {
                let m = self.area(area)[security_origin@];
                &&& r@.len() == m.dom().len()
                &&& forall|k: int| 0 <= k < r@.len() ==> m.contains_key((#[trigger] r@[k]).key@)
                    && m[r@[k].key@] == r@[k].value@
                &&& forall|i: int, j: int| 0 <= i < j < r@.len() ==> (#[trigger] r@[i]).key@ != (
                #[trigger] r@[j]).key@
            },
            !self.area(area).contains_key(security_origin@) ==> r@.len() == 0,
    {
        let storage = self.area_ref(area);
        let mut items: Vec<StorageItem> = Vec::new();
        match storage.get(security_origin) {
            Some(inner) => {
                inner.entries_agree();
                let ghost m = inner@.map_values(|s: String| s@);
                assert(m == self.area(area)[security_origin@]);
                let n = inner.len();
                let mut i: usize = 0;
                while i < n
                    invariant
                        n == inner.key_seq().len(),
                        n == inner.value_seq().len(),
                        i <= n,
                        m == inner@.map_values(|s: String| s@),
                        items@.len() == i,
                        forall|k: int| 0 <= k < i ==> (#[trigger] items@[k]).key@ == inner.key_seq()[k]
                            && items@[k].value@ == inner.value_seq()[k]@,
                        forall|k: Seq<char>| #[trigger] inner@.contains_key(k) <==> inner.key_seq().contains(k),
                        forall|a: int, b: int| 0 <= a < b < n ==> inner.key_seq()[a] != inner.key_seq()[b],
                        forall|a: int| 0 <= a < n ==> #[trigger] inner@[inner.key_seq()[a]] == inner.value_seq()[a],
                    decreases n - i,
                {
                    let key = inner.key_at(i);
                    let value = inner.value_at(i);
                    items.push(StorageItem { key: key.clone(), value: value.clone() });
                    i = i + 1;
                }
                proof {
                    assert forall|k: int| 0 <= k < items@.len() implies m.contains_key((#[trigger] items@[k]).key@)
                        && m[items@[k].key@] == items@[k].value@ by {
                        assert(inner.key_seq().contains(inner.key_seq()[k]));
                        assert(inner@[inner.key_seq()[k]] == inner.value_seq()[k]);
                    }
                    assert(m.dom() =~= inner@.dom());
                    assert forall|a: int, b: int| 0 <= a < b < items@.len() implies (#[trigger] items@[a]).key@ != (
                    #[trigger] items@[b]).key@ by {}
                }
            },
            None => {},
        }
        items
    }

    /// Sets a key of an origin in an area (creating the origin's storage).
    pub fn set_storage_item(&mut self, security_origin: &str, area: StorageAreaType, key: &str, value: &str)
        ensures
            final(self).area(area) == old(self).area(area).insert(
                security_origin@,
                (if old(self).area(area).contains_key(security_origin@) {
                    old(self).area(area)[security_origin@]
                } else {
                    Map::empty()
                }).insert(key@, value@),
            ),
            final(self).cookie_seq() == old(self).cookie_seq(),
            area == StorageAreaType::LocalStorage ==> final(self).area(StorageAreaType::SessionStorage)
                == old(self).area(StorageAreaType::SessionStorage),
            area == StorageAreaType::SessionStorage ==> final(self).area(StorageAreaType::LocalStorage)
                == old(self).area(StorageAreaType::LocalStorage),
            final(self).state_view().enabled == old(self).state_view().enabled,
    {
        let storage = match area {
            StorageAreaType::LocalStorage => &mut self.state.local_storage,
            StorageAreaType::SessionStorage => &mut self.state.session_storage,
        };
        let ghost before = area_view(*storage);
        let ghost raw0 = storage@;
        let mut inner = match storage.remove(security_origin) {
            Some(m) => m,
            None => StrMap::new(),
        };
        let ghost start = inner_view(inner);
        assert(start =~= (if before.contains_key(security_origin@) {
            before[security_origin@]
        } else {
            Map::empty()
        }));
        inner.insert(owned(key), owned(value));
        assert(inner_view(inner) =~= start.insert(key@, value@));
        let ghost placed = inner;
        storage.insert(owned(security_origin), inner);
        proof {
            lemma_area_replace(raw0, storage@, security_origin@, placed);
        }
    }

    /// Removes a key of an origin in an area, if present.
    pub fn remove_storage_item(&mut self, security_origin: &str, area: StorageAreaType, key: &str)
        ensures
            old(self).area(area).contains_key(security_origin@) ==> final(self).area(area) == old(self).area(area).insert(security_origin@, old(self).area(area)[security_origin@].remove(key@)),
            !old(self).area(area).contains_key(security_origin@) ==> final(self).area(area) == old(self).area(area),
            final(self).cookie_seq() == old(self).cookie_seq(),
            final(self).state_view().enabled == old(self).state_view().enabled,
    {
        let storage = match area {
            StorageAreaType::LocalStorage => &mut self.state.local_storage,
            StorageAreaType::SessionStorage => &mut self.state.session_storage,
        };
        let ghost before = area_view(*storage);
        let ghost raw0 = storage@;
        match storage.remove(security_origin) {
            Some(mut inner) => {
                let ghost start = inner_view(inner);
                assert(start == before[security_origin@]);
                inner.remove(key);
                assert(inner_view(inner) =~= start.remove(key@));
                let ghost placed = inner;
                storage.insert(owned(security_origin), inner);
                proof {
                    lemma_area_replace(raw0, storage@, security_origin@, placed);
                }
            },
            None => {
                proof {
                    assert(area_view(*storage) =~= before);
                }
            },
        }
    }

    /// Empties the storage of an origin in an area, if present.
    pub fn clear_storage(&mut self, security_origin: &str, area: StorageAreaType)
        ensures
            old(self).area(area).contains_key(security_origin@) ==> final(self).area(area) == old(self).area(area).insert(security_origin@, Map::empty()),
            !old(self).area(area).contains_key(security_origin@) ==> final(self).area(area) == old(self).area(area),
            final(self).cookie_seq() == old(self).cookie_seq(),
            final(self).state_view().enabled == old(self).state_view().enabled,
    {
        let storage = match area {
            StorageAreaType::LocalStorage => &mut self.state.local_storage,
            StorageAreaType::SessionStorage => &mut self.state.session_storage,
        };
        let ghost before = area_view(*storage);
        let ghost raw0 = storage@;
        match storage.remove(security_origin) {
            Some(mut inner) => {
                inner.clear();
                assert(inner_view(inner) =~= Map::<Seq<char>, Seq<char>>::empty());
                let ghost placed = inner;
                storage.insert(owned(security_origin), inner);
                proof {
                    lemma_area_replace(raw0, storage@, security_origin@, placed);
                }
            },
            None => {
                proof {
                    assert(area_view(*storage) =~= before);
                }
            },
        }
    }

    /// The cookies whose domain occurs in one of the URLs, or all cookies
    /// without URLs.
    pub fn get_cookies(&self, urls: Option<Vec<String>>) -> (r: Vec<&Cookie>)
        ensures
            match urls {
                Some(u) => {
                    let picked = cookies_for(self.cookie_seq(), u@.map_values(|s: String| s@));
                    &&& r@.len() == picked.len()
                    &&& forall|k: int| 0 <= k < r@.len() ==> *r@[k] == self.cookie_seq()[#[trigger] picked[k]]
                },
                None => r@.len() == self.cookie_seq().len() && forall|k: int|
                    0 <= k < r@.len() ==> *r@[k] == #[trigger] self.cookie_seq()[k],
            },
    {
        let cs = &self.state.cookies;
        let mut r: Vec<&Cookie> = Vec::new();
        match urls {
            None => {
                let mut i: usize = 0;
                while i < cs.len()
                    invariant
                        i <= cs@.len(),
                        r@.len() == i,
                        forall|k: int| 0 <= k < i ==> *r@[k] == #[trigger] cs@[k],
                    decreases cs@.len() - i,
                {
                    r.push(&cs[i]);
                    i = i + 1;
                }
            },
            Some(u) => {
                let ghost uv = u@.map_values(|s: String| s@);
                let mut i: usize = 0;
                while i < cs.len()
                    invariant
                        i <= cs@.len(),
                        uv == u@.map_values(|s: String| s@),
                        ({
                            let picked = cookies_for(cs@.take(i as int), uv);
                            &&& r@.len() == picked.len()
                            &&& forall|k: int| 0 <= k < r@.len() ==> 0 <= #[trigger] picked[k] < i && *r@[k]
                                == cs@[picked[k]]
                        }),
                    decreases cs@.len() - i,
                {
                    proof {
                        assert(cs@.take(i + 1).drop_last() =~= cs@.take(i as int));
                        assert(cs@.take(i + 1).last() == cs@[i as int]);
                        lemma_cookies_for_bounds(cs@.take(i as int), uv);
                    }
                    let c = &cs[i];
                    let dom = chars_of(c.domain.as_str());
                    let mut hit = false;
                    let mut k: usize = 0;
                    while k < u.len()
                        invariant
                            k <= u@.len(),
                            uv == u@.map_values(|s: String| s@),
                            dom@ == c.domain@,
                            hit == exists|j: int| 0 <= j < k && contains_seq(#[trigger] uv[j], c.domain@),
                        decreases u@.len() - k,
                    {
                        let uc = chars_of(u[k].as_str());
                        assert(uv[k as int] == u@[k as int]@);
                        if chars_contain(uc.as_slice(), dom.as_slice()) {
                            hit = true;
                        }
                        k = k + 1;
                    }
                    if hit {
                        r.push(c);
                    }
                    i = i + 1;
                }
                proof {
                    assert(cs@.take(i as int) =~= cs@);
                }
            },
        }
        r
    }

    /// Stores a cookie, replacing the one of the same name and domain.
    pub fn set_cookie(&mut self, params: SetCookieParams)
        ensures
            final(self).cookie_seq().len() >= 1,
            final(self).cookie_seq().drop_last() == cookies_without(
                old(self).cookie_seq(),
                params.name@,
                params.domain@,
            ),
            cookie_from(params, final(self).cookie_seq().last()),
            final(self).area(StorageAreaType::LocalStorage) == old(self).area(StorageAreaType::LocalStorage),
            final(self).area(StorageAreaType::SessionStorage) == old(self).area(
                StorageAreaType::SessionStorage,
            ),
    {
        let ghost p = params;
        let name_bytes = str_byte_len(params.name.as_str());
        let value_bytes = str_byte_len(params.value.as_str());
        let total: u128 = name_bytes as u128 + value_bytes as u128;
        let size = (total % 0x1_0000_0000u128) as u32;
        let session = params.expires_bits.is_none();
        let secure = params.secure;
        let cookie = Cookie {
            name: params.name,
            value: params.value,
            domain: params.domain,
            path: params.path,
            expires_bits: params.expires_bits,
            size,
            http_only: params.http_only,
            secure,
            session,
            same_site: params.same_site,
            priority: Some(CookiePriority::Medium),
            same_party: false,
            source_scheme: if secure {
                Some(CookieSourceScheme::Secure)
            } else {
                Some(CookieSourceScheme::NonSecure)
            },
            source_port: None,
        };
        self.remove_cookie(cookie.name.as_str(), cookie.domain.as_str());
        let ghost kept = self.state.cookies@;
        self.state.cookies.push(cookie);
        proof {
            assert(self.state.cookies@.drop_last() =~= kept);
        }
    }

    fn remove_cookie(&mut self, name: &str, domain: &str)
        ensures
            final(self).cookie_seq() == cookies_without(old(self).cookie_seq(), name@, domain@),
            final(self).area(StorageAreaType::LocalStorage) == old(self).area(StorageAreaType::LocalStorage),
            final(self).area(StorageAreaType::SessionStorage) == old(self).area(
                StorageAreaType::SessionStorage,
            ),
            final(self).state_view().enabled == old(self).state_view().enabled,
    {
        let mut rest: Vec<Cookie> = Vec::new();
        std::mem::swap(&mut rest, &mut self.state.cookies);
        let ghost all = rest@;
        let mut kept: Vec<Cookie> = Vec::new();
        while rest.len() > 0
            invariant
                rest@.len() <= all.len(),
                rest@ == all.skip(all.len() - rest@.len()),
                kept@ == cookies_without(all.take(all.len() - rest@.len()), name@, domain@),
            decreases rest@.len(),
        {
            let ghost i = all.len() - rest@.len();
            let ghost before = rest@;
            let c = rest.remove(0);
            proof {
                assert(c == all[i]);
                assert(rest@ =~= all.skip(i + 1));
                assert(all.take(i + 1).drop_last() =~= all.take(i));
            }
            if !(str_eq(c.name.as_str(), name) && str_eq(c.domain.as_str(), domain)) {
                kept.push(c);
            }
        }
        proof {
            assert(all.take(all.len() as int) =~= all);
        }
        self.state.cookies = kept;
    }

    /// Deletes the cookie of a name and domain.
    pub fn delete_cookie(&mut self, name: &str, domain: &str)
        ensures
            final(self).cookie_seq() == cookies_without(old(self).cookie_seq(), name@, domain@),
            final(self).area(StorageAreaType::LocalStorage) == old(self).area(StorageAreaType::LocalStorage),
            final(self).area(StorageAreaType::SessionStorage) == old(self).area(
                StorageAreaType::SessionStorage,
            ),
    {
        self.remove_cookie(name, domain);
    }

    /// Deletes every cookie.
    pub fn clear_cookies(&mut self)
        ensures
            final(self).cookie_seq().len() == 0,
            final(self).area(StorageAreaType::LocalStorage) == old(self).area(StorageAreaType::LocalStorage),
            final(self).area(StorageAreaType::SessionStorage) == old(self).area(
                StorageAreaType::SessionStorage,
            ),
    {
        self.state.cookies = Vec::new();
    }

    /// The databases of an origin (none for an unknown origin).
    pub fn get_indexed_db_databases(&self, security_origin: &str) -> (r: &[DatabaseInfo])
        ensures
            self.state_view().indexed_db@.contains_key(security_origin@) ==> r@ == self.state_view().indexed_db@[security_origin@]@,
            !self.state_view().indexed_db@.contains_key(security_origin@) ==> r@.len() == 0,
    {
        match self.state.indexed_db.get(security_origin) {
            Some(dbs) => dbs.as_slice(),
            None => &[],
        }
    }

    /// The first database of an origin with a name; an error (server
    /// error -32000, `Database not found`) when there is none.
    pub fn get_indexed_db_database(&self, security_origin: &str, database_name: &str) -> (r: Result<&DatabaseInfo, ProtocolError>)
        ensures
            ({
                let found = if self.state_view().indexed_db@.contains_key(security_origin@) {
                    first_database(self.state_view().indexed_db@[security_origin@]@, database_name@)
                } else {
                    None
                };
                match found {
                    Some(k) => r matches Ok(d) && *d == self.state_view().indexed_db@[security_origin@]@[k],
                    None => r matches Err(ProtocolError::ServerError(code, m)) && code == -32000
                        && m@ == "Database not found"@,
                }
            }),
    {
        match self.state.indexed_db.get(security_origin) {
            Some(dbs) => {
                let mut i: usize = 0;
                while i < dbs.len()
                    invariant
                        i <= dbs@.len(),
                        *dbs == self.state.indexed_db@[security_origin@],
                        self.state.indexed_db@.contains_key(security_origin@),
                        first_database(dbs@.take(i as int), database_name@) is None,
                    decreases dbs@.len() - i,
                {
                    proof {
                        assert(dbs@.take(i + 1).drop_last() =~= dbs@.take(i as int));
                    }
                    if str_eq(dbs[i].name.as_str(), database_name) {
                        proof {
                            lemma_first_database_prefix(dbs@, database_name@, i + 1);
                        }
                        return Ok(&dbs[i]);
                    }
                    i = i + 1;
                }
                proof {
                    assert(dbs@.take(i as int) =~= dbs@);
                }
                Err(ProtocolError::ServerError(-32000, owned("Database not found")))
            },
            None => Err(ProtocolError::ServerError(-32000, owned("Database not found"))),
        }
    }

    /// Deletes the databases of an origin with a name.
    pub fn delete_indexed_db_database(&mut self, security_origin: &str, database_name: &str)
        ensures
            old(self).state_view().indexed_db@.contains_key(security_origin@) ==> {
                &&& final(self).state_view().indexed_db@.contains_key(security_origin@)
                &&& final(self).state_view().indexed_db@[security_origin@]@ == databases_without(
                    old(self).state_view().indexed_db@[security_origin@]@,
                    database_name@,
                )
            },
            !old(self).state_view().indexed_db@.contains_key(security_origin@) ==> final(self).state_view().indexed_db@ == old(self).state_view().indexed_db@,
            final(self).cookie_seq() == old(self).cookie_seq(),
    {
        match self.state.indexed_db.remove(security_origin) {
            Some(dbs) => {
                let ghost all = dbs@;
                let mut rest = dbs;
                let mut kept: Vec<DatabaseInfo> = Vec::new();
                while rest.len() > 0
                    invariant
                        rest@.len() <= all.len(),
                        rest@ == all.skip(all.len() - rest@.len()),
                        kept@ == databases_without(all.take(all.len() - rest@.len()), database_name@),
                    decreases rest@.len(),
                {
                    let ghost i = all.len() - rest@.len();
                    let d = rest.remove(0);
                    proof {
                        assert(d == all[i]);
                        assert(rest@ =~= all.skip(i + 1));
                        assert(all.take(i + 1).drop_last() =~= all.take(i));
                    }
                    if !str_eq(d.name.as_str(), database_name) {
                        kept.push(d);
                    }
                }
                proof {
                    assert(all.take(all.len() as int) =~= all);
                }
                self.state.indexed_db.insert(owned(security_origin), kept);
            },
            None => {},
        }
    }

    /// Clearing an object store keeps nothing to clear here.
    pub fn clear_object_store(&self, security_origin: &str, database_name: &str, object_store_name: &str) {
    }

    /// The bytes of the keys and values of one origin in one area.
    fn origin_usage(storage: &StrMap<StrMap<String>>, security_origin: &str) -> (r: u128)
        ensures
            storage@.contains_key(security_origin@) ==> r == sat(
                entry_bytes(storage@[security_origin@].key_seq(), storage@[security_origin@].value_seq()),
            ),
            !storage@.contains_key(security_origin@) ==> r == 0,
    {
        match storage.get(security_origin) {
            Some(inner) => {
                inner.entries_agree();
                let n = inner.len();
                let mut total: u128 = 0;
                let mut i: usize = 0;
                while i < n
                    invariant
                        n == inner.key_seq().len(),
                        n == inner.value_seq().len(),
                        i <= n,
                        total == sat(entry_bytes(inner.key_seq().take(i as int), inner.value_seq().take(i as int))),
                        entry_bytes(inner.key_seq().take(i as int), inner.value_seq().take(i as int)) >= 0,
                    decreases n - i,
                {
                    let k = inner.key_at(i);
                    let v = inner.value_at(i);
                    let kb = str_byte_len(k.as_str());
                    let vb = str_byte_len(v.as_str());
                    proof {
                        let ks = inner.key_seq().take(i + 1);
                        let vs = inner.value_seq().take(i + 1);
                        assert(ks.drop_last() =~= inner.key_seq().take(i as int));
                        assert(vs.take(i as int) =~= inner.value_seq().take(i as int));
                        assert(ks.last() == k@);
                        assert(vs[i as int] == *v);
                    }
                    total = total.saturating_add(kb as u128).saturating_add(vb as u128);
                    i = i + 1;
                }
                proof {
                    assert(inner.key_seq().take(n as int) =~= inner.key_seq());
                    assert(inner.value_seq().take(n as int) =~= inner.value_seq());
                }
                total
            },
            None => 0,
        }
    }

    /// The usage estimate of an origin: the bytes of its local and session
    /// keys and values, against a quota of 10 MiB.
    pub fn get_usage_and_quota(&self, security_origin: &str) -> (r: UsageAndQuota)
        ensures
            r.quota == 10 * 1024 * 1024,
            r.usage == sat(r.local_usage + r.session_usage),
            self.state_view().local_storage@.contains_key(security_origin@) ==> r.local_usage == sat(
                entry_bytes(
                    self.state_view().local_storage@[security_origin@].key_seq(),
                    self.state_view().local_storage@[security_origin@].value_seq(),
                ),
            ),
            !self.state_view().local_storage@.contains_key(security_origin@) ==> r.local_usage == 0,
            self.state_view().session_storage@.contains_key(security_origin@) ==> r.session_usage
                == sat(
                entry_bytes(
                    self.state_view().session_storage@[security_origin@].key_seq(),
                    self.state_view().session_storage@[security_origin@].value_seq(),
                ),
            ),
            !self.state_view().session_storage@.contains_key(security_origin@) ==> r.session_usage == 0,
    {
        let local_usage = Self::origin_usage(&self.state.local_storage, security_origin);
        let session_usage = Self::origin_usage(&self.state.session_storage, security_origin);
        UsageAndQuota {
            usage: local_usage.saturating_add(session_usage),
            quota: 10 * 1024 * 1024,
            local_usage,
            session_usage,
        }
    }
}

proof fn lemma_cookies_for_bounds(cs: Seq<Cookie>, urls: Seq<Seq<char>>)
    ensures
        forall|k: int| 0 <= k < cookies_for(cs, urls).len() ==> 0 <= #[trigger] cookies_for(cs, urls)[k] < cs.len(),
    decreases cs.len(),
{
    if cs.len() > 0 {
        lemma_cookies_for_bounds(cs.drop_last(), urls);
        let rest = cookies_for(cs.drop_last(), urls);
        assert forall|k: int| 0 <= k < cookies_for(cs, urls).len() implies 0 <= #[trigger] cookies_for(cs, urls)[k] < cs.len() by {
            if k < rest.len() {
                assert(cookies_for(cs, urls)[k] == rest[k]);
            }
        }
    }
}

proof fn lemma_first_database_prefix(dbs: Seq<DatabaseInfo>, name: Seq<char>, n: int)
    requires
        1 <= n <= dbs.len(),
        first_database(dbs.take(n - 1), name) is None,
        dbs[n - 1].name@ == name,
    ensures
        first_database(dbs, name) == Some(n - 1),
    decreases dbs.len() - n,
{
    assert(dbs.take(n).drop_last() =~= dbs.take(n - 1));
    if n < dbs.len() {
        lemma_first_database_extend(dbs, name, n + 1, n - 1);
    } else {
        assert(dbs.take(n) =~= dbs);
    }
}

proof fn lemma_first_database_extend(dbs: Seq<DatabaseInfo>, name: Seq<char>, n: int, k: int)
    requires
        1 <= n <= dbs.len(),
        first_database(dbs.take(n - 1), name) == Some(k),
    ensures
        first_database(dbs, name) == Some(k),
    decreases dbs.len() - n,
{
    assert(dbs.take(n).drop_last() =~= dbs.take(n - 1));
    if n < dbs.len() {
        lemma_first_database_extend(dbs, name, n + 1, k);
    } else {
        assert(dbs.take(n) =~= dbs);
    }
}

/// What a read gives back of a write: after a key is set for an origin, the
/// origin's storage holds the written value under that key, and every other
/// key keeps its value.
pub proof fn stored_item_reads_back(
    area: Map<Seq<char>, Map<Seq<char>, Seq<char>>>,
    origin: Seq<char>,
    key: Seq<char>,
    value: Seq<char>,
    other: Seq<char>,
)
    ensures
        ({
            let after = area.insert(
                origin,
                (if area.contains_key(origin) { area[origin] } else { Map::empty() }).insert(key, value),
            );
            &&& after[origin][key] == value
            &&& other != key && area.contains_key(origin) && area[origin].contains_key(other)
                ==> after[origin][other] == area[origin][other]
        }),
{
}

/// A deleted cookie is gone: no cookie of that name and domain remains,
/// and the others keep their order.
pub proof fn deleted_cookie_is_gone(cs: Seq<Cookie>, name: Seq<char>, domain: Seq<char>)
    ensures
        forall|k: int| 0 <= k < cookies_without(cs, name, domain).len() ==> !same_cookie(
            #[trigger] cookies_without(cs, name, domain)[k],
            name,
            domain,
        ),
    decreases cs.len(),
{
    if cs.len() > 0 {
        deleted_cookie_is_gone(cs.drop_last(), name, domain);
        let rest = cookies_without(cs.drop_last(), name, domain);
        assert forall|k: int| 0 <= k < cookies_without(cs, name, domain).len() implies !same_cookie(
            #[trigger] cookies_without(cs, name, domain)[k],
            name,
            domain,
        ) by {
            if k < rest.len() {
                assert(cookies_without(cs, name, domain)[k] == rest[k]);
            }
        }
    }
}

} // verus!
