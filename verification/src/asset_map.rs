use vstd::prelude::*;

verus! {

/// One tracked asset: the key the game knows it by, the id of its handle,
/// what was asked for along with it (such as how an atlas is cut), and what
/// was learnt once it finished loading (`None` while loading).
#[derive(Debug, Clone, Copy, PartialEq, Eq, Structural)]
pub struct AssetEntry<K, R, I> {
    pub key: K,
    pub handle: u64,
    pub request: R,
    pub loaded: Option<I>,
}

/// A set of assets requested under keys, tracked until each has loaded.
#[derive(Debug)]
pub struct AssetMap<K, R, I> {
    entries: Vec<AssetEntry<K, R, I>>,
}

/// Index of the first entry satisfying `p`.
pub open spec fn first_index<K, R, I>(s: Seq<AssetEntry<K, R, I>>, p: spec_fn(AssetEntry<K, R, I>) -> bool) -> Option<int>
    decreases s.len(),
{
    if s.len() == 0 {
        None
    } else if p(s[0]) {
        Some(0)
    } else {
        match first_index(s.drop_first(), p) {
            Some(i) => Some(i + 1),
            None => None,
        }
    }
}

proof fn lemma_first_index<K, R, I>(s: Seq<AssetEntry<K, R, I>>, p: spec_fn(AssetEntry<K, R, I>) -> bool)
    ensures
        match first_index(s, p) {
            Some(i) => 0 <= i < s.len() && p(s[i]) && forall|k: int| 0 <= k < i ==> !p(#[trigger] s[k]),
            None => forall|k: int| 0 <= k < s.len() ==> !p(#[trigger] s[k]),
        },
    decreases s.len(),
{
    if s.len() > 0 && !p(s[0]) {
        lemma_first_index(s.drop_first(), p);
        assert forall|k: int| 0 < k < s.len() implies s[k] == s.drop_first()[k - 1] by {}
    }
}

proof fn lemma_first_index_at<K, R, I>(s: Seq<AssetEntry<K, R, I>>, p: spec_fn(AssetEntry<K, R, I>) -> bool, i: int)
    requires
        0 <= i <= s.len(),
        forall|k: int| 0 <= k < i ==> !p(#[trigger] s[k]),
    ensures
        i < s.len() && p(s[i]) ==> first_index(s, p) == Some(i),
        i == s.len() ==> first_index(s, p) is None,
    decreases s.len(),
{
    if s.len() > 0 && i > 0 {
        assert forall|k: int| 0 <= k < i - 1 implies !p(#[trigger] s.drop_first()[k]) by {
            assert(s.drop_first()[k] == s[k + 1]);
        }
        lemma_first_index_at(s.drop_first(), p, i - 1);
    }
}

/// The entry is known by `key`.
pub open spec fn has_key<K, R, I>(key: K) -> spec_fn(AssetEntry<K, R, I>) -> bool {
    |e: AssetEntry<K, R, I>| e.key == key
}

/// The entry has finished loading and is known by `key`.
pub open spec fn loaded_with_key<K, R, I>(key: K) -> spec_fn(AssetEntry<K, R, I>) -> bool {
    |e: AssetEntry<K, R, I>| e.loaded is Some && e.key == key
}

/// The entry is tracked through handle `handle`.
pub open spec fn has_handle<K, R, I>(handle: u64) -> spec_fn(AssetEntry<K, R, I>) -> bool {
    |e: AssetEntry<K, R, I>| e.handle == handle
}

/// Entries for the requested `(key, handle, request)` triples, all still
/// loading.
pub open spec fn requested_entries<K, R, I>(requests: Seq<(K, u64, R)>) -> Seq<AssetEntry<K, R, I>> {
    requests.map_values(|r: (K, u64, R)| AssetEntry::<K, R, I> { key: r.0, handle: r.1, request: r.2, loaded: None })
}

/// The `(key, handle)` requests with nothing more asked for.
pub open spec fn plain_requests<K>(requests: Seq<(K, u64)>) -> Seq<(K, u64, ())> {
    requests.map_values(|r: (K, u64)| (r.0, r.1, ()))
}

/// Every requested asset has finished loading.
pub open spec fn all_loaded<K, R, I>(s: Seq<AssetEntry<K, R, I>>) -> bool {
    forall|i: int| 0 <= i < s.len() ==> (#[trigger] s[i]).loaded is Some
}

/// The loaded entries, in order.
pub open spec fn loaded_entries<K, R, I>(s: Seq<AssetEntry<K, R, I>>) -> Seq<AssetEntry<K, R, I>> {
    s.filter(|e: AssetEntry<K, R, I>| e.loaded is Some)
}

/// The entries after the asset behind `handle` reported that it loaded.
pub open spec fn mark_loaded_spec<K, R, I>(s: Seq<AssetEntry<K, R, I>>, handle: u64, info: I) -> Seq<AssetEntry<K, R, I>> {
    match first_index(s, has_handle(handle)) {
        Some(i) => s.update(i, AssetEntry { key: s[i].key, handle: s[i].handle, request: s[i].request, loaded: Some(info) }),
        None => s,
    }
}

impl<K: Copy + PartialEq, R: Copy, I: Copy> AssetMap<K, R, I> {
    pub closed spec fn entries(&self) -> Seq<AssetEntry<K, R, I>> {
        self.entries@
    }

    /// Tracks the requested assets, each `(key, handle, request)` still
    /// loading.
    pub fn requested(requests: &Vec<(K, u64, R)>) -> (m: Self)
        ensures
            m.entries() == requested_entries::<K, R, I>(requests@),
    {
        let mut entries: Vec<AssetEntry<K, R, I>> = Vec::new();
        let mut i: usize = 0;
        while i < requests.len()
            invariant
                i <= requests.len(),
                entries.len() == i,
                forall|k: int| 0 <= k < i ==> #[trigger] entries@[k] == (AssetEntry::<K, R, I> {
                    key: requests@[k].0,
                    handle: requests@[k].1,
                    request: requests@[k].2,
                    loaded: None,
                }),
            decreases requests.len() - i,
        {
            let (key, handle, request) = requests[i];
            entries.push(AssetEntry { key, handle, request, loaded: None });
            i = i + 1;
        }
        proof {
            assert(entries@ =~= requested_entries::<K, R, I>(requests@));
        }
        AssetMap { entries }
    }

    pub fn len(&self) -> (n: usize)
        ensures
            n == self.entries().len(),
    {
        self.entries.len()
    }

    pub fn is_empty(&self) -> (b: bool)
        ensures
            b == (self.entries().len() == 0),
    {
        self.entries.len() == 0
    }

    /// Whether every requested asset has loaded; systems waiting on the
    /// assets run once it holds.
    pub fn ready(&self) -> (b: bool)
        ensures
            b == all_loaded(self.entries()),
    {
        let mut i: usize = 0;
        while i < self.entries.len()
            invariant
                i <= self.entries.len(),
                forall|k: int| 0 <= k < i ==> (#[trigger] self.entries@[k]).loaded is Some,
            decreases self.entries.len() - i,
        {
            if self.entries[i].loaded.is_none() {
                return false;
            }
            i = i + 1;
        }
        true
    }

    /// The loaded assets, in request order.
    pub fn iter(&self) -> (v: Vec<AssetEntry<K, R, I>>)
        ensures
            v@ == loaded_entries(self.entries()),
    {
        let ghost pred = |e: AssetEntry<K, R, I>| e.loaded is Some;
        let mut v: Vec<AssetEntry<K, R, I>> = Vec::new();
        let mut i: usize = 0;
        while i < self.entries.len()
            invariant
                i <= self.entries.len(),
                pred == (|e: AssetEntry<K, R, I>| e.loaded is Some),
                v@ == self.entries@.take(i as int).filter(pred),
            decreases self.entries.len() - i,
        {
            let e = self.entries[i];
            proof {
                assert(self.entries@.take(i as int + 1) =~= self.entries@.take(i as int).push(e));
                self.entries@.take(i as int).lemma_filter_push(e, pred);
            }
            if e.loaded.is_some() {
                v.push(e);
            }
            i = i + 1;
        }
        proof {
            assert(self.entries@.take(i as int) =~= self.entries@);
        }
        v
    }

    /// The key of the first asset tracked through `handle`.
    pub fn key_of_handle(&self, handle: u64) -> (r: Option<K>)
        ensures
            r == match first_index(self.entries(), has_handle(handle)) {
                Some(i) => Some(self.entries()[i].key),
                None => None,
            },
    {
        match self.index_of_handle(handle) {
            Some(i) => Some(self.entries[i].key),
            None => None,
        }
    }

    fn index_of_handle(&self, handle: u64) -> (r: Option<usize>)
        ensures
            match r {
                Some(i) => i < self.entries().len() && first_index(self.entries(), has_handle(handle)) == Some(i as int),
                None => first_index(self.entries(), has_handle(handle)) is None,
            },
    {
        let mut i: usize = 0;
        while i < self.entries.len()
            invariant
                i <= self.entries.len(),
                forall|k: int| 0 <= k < i ==> !has_handle::<K, R, I>(handle)(#[trigger] self.entries@[k]),
            decreases self.entries.len() - i,
        {
            if self.entries[i].handle == handle {
                proof {
                    lemma_first_index_at(self.entries@, has_handle(handle), i as int);
                }
                return Some(i);
            }
            i = i + 1;
        }
        proof {
            lemma_first_index_at(self.entries@, has_handle(handle), i as int);
        }
        None
    }

    /// Records that the asset behind `handle` finished loading (or was
    /// reloaded) with `info`; returns the entry as it now stands: the key and
    /// request it was asked for under, with `info`.
    pub fn mark_loaded(&mut self, handle: u64, info: I) -> (r: Option<AssetEntry<K, R, I>>)
        ensures
            final(self).entries() == mark_loaded_spec(old(self).entries(), handle, info),
            r == match first_index(old(self).entries(), has_handle(handle)) {
                Some(i) => Some(final(self).entries()[i]),
                None => None,
            },
    {
        match self.index_of_handle(handle) {
            Some(i) => {
                let old_entry = self.entries[i];
                let e = AssetEntry { key: old_entry.key, handle: old_entry.handle, request: old_entry.request, loaded: Some(info) };
                self.entries.set(i, e);
                Some(e)
            },
            None => None,
        }
    }
}

/// Lookups by key. Keys are integer ids (a game numbers its asset kinds),
/// so that finding a key compares plain numbers.
impl<R: Copy, I: Copy> AssetMap<u64, R, I> {
    /// The handle of the first asset requested under `key`, loaded or not.
    pub fn handle_of(&self, key: &u64) -> (r: Option<u64>)
        ensures
            r == match first_index(self.entries(), has_key(*key)) {
                Some(i) => Some(self.entries()[i].handle),
                None => None,
            },
    {
        let mut i: usize = 0;
        while i < self.entries.len()
            invariant
                i <= self.entries.len(),
                forall|k: int| 0 <= k < i ==> !has_key::<u64, R, I>(*key)(#[trigger] self.entries@[k]),
            decreases self.entries.len() - i,
        {
            if self.entries[i].key == *key {
                proof {
                    lemma_first_index_at(self.entries@, has_key(*key), i as int);
                }
                return Some(self.entries[i].handle);
            }
            i = i + 1;
        }
        proof {
            lemma_first_index_at(self.entries@, has_key(*key), i as int);
        }
        None
    }

    /// The first loaded asset requested under `key`.
    pub fn get_loaded(&self, key: &u64) -> (r: Option<AssetEntry<u64, R, I>>)
        ensures
            r == match first_index(self.entries(), loaded_with_key(*key)) {
                Some(i) => Some(self.entries()[i]),
                None => None,
            },
    {
        let mut i: usize = 0;
        while i < self.entries.len()
            invariant
                i <= self.entries.len(),
                forall|k: int| 0 <= k < i ==> !loaded_with_key::<u64, R, I>(*key)(#[trigger] self.entries@[k]),
            decreases self.entries.len() - i,
        {
            if self.entries[i].loaded.is_some() && self.entries[i].key == *key {
                proof {
                    lemma_first_index_at(self.entries@, loaded_with_key(*key), i as int);
                }
                return Some(self.entries[i]);
            }
            i = i + 1;
        }
        proof {
            lemma_first_index_at(self.entries@, loaded_with_key(*key), i as int);
        }
        None
    }
}

/// Loading never forgets: after a load report every asset keeps its key,
/// handle and request, every asset already loaded stays loaded, and the asset reported
/// on is loaded.
pub proof fn law_mark_loaded_monotone<K, R, I>(s: Seq<AssetEntry<K, R, I>>, handle: u64, info: I)
    ensures
        mark_loaded_spec(s, handle, info).len() == s.len(),
        forall|i: int| 0 <= i < s.len() ==> {
            &&& (#[trigger] mark_loaded_spec(s, handle, info)[i]).key == s[i].key
            &&& mark_loaded_spec(s, handle, info)[i].handle == s[i].handle
            &&& mark_loaded_spec(s, handle, info)[i].request == s[i].request
            &&& (s[i].loaded is Some ==> mark_loaded_spec(s, handle, info)[i].loaded is Some)
        },
        first_index(s, has_handle(handle)) matches Some(i) ==> mark_loaded_spec(s, handle, info)[i].loaded == Some(info),
{
    lemma_first_index(s, has_handle(handle));
}

/// Once every requested asset has reported a load, the map is ready; and it
/// is ready exactly when all its entries are listed as loaded.
pub proof fn law_ready_iff_all_listed<K, R, I>(s: Seq<AssetEntry<K, R, I>>)
    ensures
        all_loaded(s) <==> loaded_entries(s).len() == s.len(),
    decreases s.len(),
{
    broadcast use vstd::seq_lib::group_filter_ensures;
    let pred = |e: AssetEntry<K, R, I>| e.loaded is Some;
    if s.len() > 0 {
        let front = s.drop_last();
        law_ready_iff_all_listed(front);
        assert(s =~= front.push(s.last()));
        front.lemma_filter_push(s.last(), pred);
        front.filter(pred).lemma_filter_len(pred);
        front.lemma_filter_len(pred);
        if all_loaded(s) {
            assert(all_loaded(front)) by {
                assert forall|i: int| 0 <= i < front.len() implies (#[trigger] front[i]).loaded is Some by {
                    assert(front[i] == s[i]);
                }
            }
        } else {
            let j = choose|j: int| 0 <= j < s.len() && !((#[trigger] s[j]).loaded is Some);
            if j == s.len() - 1 {
            } else {
                assert(front[j] == s[j]);
                assert(!all_loaded(front));
            }
        }
    } else {
        reveal(Seq::filter);
    }
}

/// A report from the asset loader about one asset.
#[derive(Debug, Clone, Copy)]
pub enum AssetEvent<I> {
    /// The asset finished loading, with what was learnt of it.
    Created { handle: u64, info: I },
    /// The asset was reloaded.
    Modified { handle: u64, info: I },
    /// The asset was dropped.
    Removed { handle: u64 },
}

/// What the map noticed about a tracked asset while applying reports.
#[derive(Debug, Clone, Copy, PartialEq, Eq, Structural)]
pub enum AssetNotice<K, R, I> {
    /// The asset has loaded: its entry as the map now holds it, with the
    /// key, the request and what was learnt of it.
    Loaded(AssetEntry<K, R, I>),
    /// The asset requested under the key was removed (a warning).
    Removed(K),
}

/// The entries after applying the reports in order.
pub open spec fn apply_events_spec<K, R, I>(s: Seq<AssetEntry<K, R, I>>, events: Seq<AssetEvent<I>>) -> Seq<AssetEntry<K, R, I>>
    decreases events.len(),
{
    if events.len() == 0 {
        s
    } else {
        let before = apply_events_spec(s, events.drop_last());
        match events.last() {
            AssetEvent::Created { handle, info } => mark_loaded_spec(before, handle, info),
            AssetEvent::Modified { handle, info } => mark_loaded_spec(before, handle, info),
            AssetEvent::Removed { handle } => before,
        }
    }
}

/// The notices raised by the reports, in order.
pub open spec fn notices_spec<K, R, I>(s: Seq<AssetEntry<K, R, I>>, events: Seq<AssetEvent<I>>) -> Seq<AssetNotice<K, R, I>>
    decreases events.len(),
{
    if events.len() == 0 {
        Seq::empty()
    } else {
        let before = apply_events_spec(s, events.drop_last());
        let earlier = notices_spec(s, events.drop_last());
        let h = match events.last() {
            AssetEvent::Created { handle, info } => handle,
            AssetEvent::Modified { handle, info } => handle,
            AssetEvent::Removed { handle } => handle,
        };
        match first_index(before, has_handle(h)) {
            Some(i) => earlier.push(match events.last() {
                AssetEvent::Removed { .. } => AssetNotice::Removed(before[i].key),
                _ => AssetNotice::Loaded(apply_events_spec(s, events)[i]),
            }),
            None => earlier,
        }
    }
}

/// Whatever the loader reports, every tracked asset keeps the key, handle and
/// request (for an atlas: the definition it is cut by) it was asked for
/// with, and an asset that loaded stays loaded.
pub proof fn law_reports_keep_requests<K, R, I>(s: Seq<AssetEntry<K, R, I>>, events: Seq<AssetEvent<I>>)
    ensures
        apply_events_spec(s, events).len() == s.len(),
        forall|i: int| 0 <= i < s.len() ==> {
            &&& (#[trigger] apply_events_spec(s, events)[i]).key == s[i].key
            &&& apply_events_spec(s, events)[i].handle == s[i].handle
            &&& apply_events_spec(s, events)[i].request == s[i].request
            &&& (s[i].loaded is Some ==> apply_events_spec(s, events)[i].loaded is Some)
        },
    decreases events.len(),
{
    if events.len() > 0 {
        let before = apply_events_spec(s, events.drop_last());
        law_reports_keep_requests(s, events.drop_last());
        match events.last() {
            AssetEvent::Created { handle, info } => {
                law_mark_loaded_monotone(before, handle, info);
            },
            AssetEvent::Modified { handle, info } => {
                law_mark_loaded_monotone(before, handle, info);
            },
            AssetEvent::Removed { handle } => {},
        }
        assert forall|i: int| 0 <= i < s.len() implies {
            &&& (#[trigger] apply_events_spec(s, events)[i]).key == s[i].key
            &&& apply_events_spec(s, events)[i].handle == s[i].handle
            &&& apply_events_spec(s, events)[i].request == s[i].request
            &&& (s[i].loaded is Some ==> apply_events_spec(s, events)[i].loaded is Some)
        } by {
            assert(before[i].key == s[i].key);
        }
    }
}

impl<K: Copy + PartialEq, R: Copy, I: Copy> AssetMap<K, R, I> {
    /// Applies the loader's reports in order: a created or modified asset
    /// becomes loaded with its new information and is announced with its
    /// entry as now held (key, request and information); a removed one is
    /// only noticed. Reports about untracked handles are ignored.
    pub fn monitor(&mut self, events: &Vec<AssetEvent<I>>) -> (notices: Vec<AssetNotice<K, R, I>>)
        ensures
            final(self).entries() == apply_events_spec(old(self).entries(), events@),
            notices@ == notices_spec(old(self).entries(), events@),
    {
        let ghost start = self.entries@;
        let mut notices: Vec<AssetNotice<K, R, I>> = Vec::new();
        let mut i: usize = 0;
        while i < events.len()
            invariant
                i <= events.len(),
                self.entries@ == apply_events_spec(start, events@.take(i as int)),
                notices@ == notices_spec(start, events@.take(i as int)),
            decreases events.len() - i,
        {
            proof {
                assert(events@.take(i as int + 1).drop_last() =~= events@.take(i as int));
                assert(events@.take(i as int + 1).last() == events@[i as int]);
            }
            match events[i] {
                AssetEvent::Created { handle, info } => {
                    if let Some(e) = self.mark_loaded(handle, info) {
                        notices.push(AssetNotice::Loaded(e));
                    }
                },
                AssetEvent::Modified { handle, info } => {
                    if let Some(e) = self.mark_loaded(handle, info) {
                        notices.push(AssetNotice::Loaded(e));
                    }
                },
                AssetEvent::Removed { handle } => {
                    if let Some(k) = self.key_of_handle(handle) {
                        notices.push(AssetNotice::Removed(k));
                    }
                },
            }
            i = i + 1;
        }
        proof {
            assert(events@.take(i as int) =~= events@);
        }
        notices
    }
}

/// How a texture atlas is cut into frames.
#[derive(Debug, Clone, Copy, PartialEq, Eq, Structural)]
pub enum AtlasDefinition {
    Grid { columns: usize, rows: usize },
}

/// Pixel size of a loaded texture.
#[derive(Debug, Clone, Copy, PartialEq, Eq, Structural)]
pub struct TextureSize {
    pub width: u32,
    pub height: u32,
}

/// What the loader reports of an atlas texture once it loaded: the atlas
/// built from it and the pixel size of the texture.
#[derive(Debug, Clone, Copy, PartialEq, Eq, Structural)]
pub struct AtlasLoad {
    pub atlas: u64,
    pub texture_size: TextureSize,
}

/// What is known of a loaded texture atlas: the atlas built from it, the
/// pixel size of its texture and how it is cut (as requested for its key).
#[derive(Debug, Clone, Copy, PartialEq, Eq, Structural)]
pub struct AtlasInfo {
    pub atlas: u64,
    pub texture_size: TextureSize,
    pub definition: AtlasDefinition,
}

/// The atlas information of a tracked atlas entry, once it has loaded: the
/// definition is the one requested with the entry.
pub open spec fn atlas_info_spec<K>(e: AssetEntry<K, AtlasDefinition, AtlasLoad>) -> Option<AtlasInfo> {
    match e.loaded {
        Some(l) => Some(AtlasInfo { atlas: l.atlas, texture_size: l.texture_size, definition: e.request }),
        None => None,
    }
}

/// The atlas information of a tracked atlas entry (as held by the map or
/// carried by a `Loaded` notice), once it has loaded.
pub fn atlas_info<K: Copy>(e: &AssetEntry<K, AtlasDefinition, AtlasLoad>) -> (r: Option<AtlasInfo>)
    ensures
        r == atlas_info_spec(*e),
{
    match e.loaded {
        Some(l) => Some(AtlasInfo { atlas: l.atlas, texture_size: l.texture_size, definition: e.request }),
        None => None,
    }
}

impl<K: Copy + PartialEq, I: Copy> AssetMap<K, (), I> {
    /// Tracks the requested assets, each `(key, handle)` still loading, with
    /// nothing more asked for.
    pub fn requested_plain(requests: &Vec<(K, u64)>) -> (m: Self)
        ensures
            m.entries() == requested_entries::<K, (), I>(plain_requests(requests@)),
    {
        let mut triples: Vec<(K, u64, ())> = Vec::new();
        let mut i: usize = 0;
        while i < requests.len()
            invariant
                i <= requests.len(),
                triples@ == plain_requests(requests@.take(i as int)),
            decreases requests.len() - i,
        {
            let (key, handle) = requests[i];
            triples.push((key, handle, ()));
            i = i + 1;
            proof {
                assert(plain_requests(requests@.take(i as int)) =~= plain_requests(requests@.take(i - 1)).push((key, handle, ())));
                assert(triples@ =~= plain_requests(requests@.take(i as int)));
            }
        }
        proof {
            assert(requests@.take(i as int) =~= requests@);
        }
        Self::requested(&triples)
    }
}

impl<K: Copy + PartialEq> AssetMap<K, (), ()> {
    /// Tracks fonts whose loading was requested (`(key, handle)`).
    pub fn with_font_paths(requests: &Vec<(K, u64)>) -> (m: Self)
        ensures
            m.entries() == requested_entries::<K, (), ()>(plain_requests(requests@)),
    {
        Self::requested_plain(requests)
    }

    /// Tracks audio files whose loading was requested (`(key, handle)`).
    pub fn with_audio_paths(requests: &Vec<(K, u64)>) -> (m: Self)
        ensures
            m.entries() == requested_entries::<K, (), ()>(plain_requests(requests@)),
    {
        Self::requested_plain(requests)
    }
}

impl AssetMap<u64, (), ()> {
    /// The handle of the first font or sound requested under `key`, loaded
    /// or not.
    pub fn get(&self, key: &u64) -> (r: Option<u64>)
        ensures
            r == match first_index(self.entries(), has_key(*key)) {
                Some(i) => Some(self.entries()[i].handle),
                None => None,
            },
    {
        self.handle_of(key)
    }
}

impl<K: Copy + PartialEq> AssetMap<K, (), TextureSize> {
    /// Tracks textures whose loading was requested (`(key, handle)`).
    pub fn with_texture_paths(requests: &Vec<(K, u64)>) -> (m: Self)
        ensures
            m.entries() == requested_entries::<K, (), TextureSize>(plain_requests(requests@)),
    {
        Self::requested_plain(requests)
    }
}

impl AssetMap<u64, (), TextureSize> {
    /// The handle and size of the first loaded texture requested under `key`.
    pub fn get(&self, key: &u64) -> (r: Option<(u64, TextureSize)>)
        ensures
            r == match first_index(self.entries(), loaded_with_key(*key)) {
                Some(i) => Some((self.entries()[i].handle, self.entries()[i].loaded.unwrap())),
                None => None,
            },
    {
        proof {
            lemma_first_index(self.entries(), loaded_with_key(*key));
        }
        match self.get_loaded(key) {
            Some(e) => match e.loaded {
                Some(size) => Some((e.handle, size)),
                None => None,
            },
            None => None,
        }
    }
}

impl<K: Copy + PartialEq> AssetMap<K, AtlasDefinition, AtlasLoad> {
    /// Tracks atlas textures whose loading was requested, each
    /// `(key, handle, definition)` still loading and keeping the definition
    /// it is to be cut by.
    pub fn with_texture_paths(requests: &Vec<(K, u64, AtlasDefinition)>) -> (m: Self)
        ensures
            m.entries() == requested_entries::<K, AtlasDefinition, AtlasLoad>(requests@),
    {
        Self::requested(requests)
    }
}

impl AssetMap<u64, AtlasDefinition, AtlasLoad> {
    /// The texture handle and atlas of the first loaded atlas requested
    /// under `key`, cut by the definition requested with it.
    pub fn get(&self, key: &u64) -> (r: Option<(u64, AtlasInfo)>)
        ensures
            r == match first_index(self.entries(), loaded_with_key(*key)) {
                Some(i) => Some((self.entries()[i].handle, atlas_info_spec(self.entries()[i]).unwrap())),
                None => None,
            },
    {
        proof {
            lemma_first_index(self.entries(), loaded_with_key(*key));
        }
        match self.get_loaded(key) {
            Some(e) => match atlas_info(&e) {
                Some(info) => Some((e.handle, info)),
                None => None,
            },
            None => None,
        }
    }
}

/// Fonts tracked by key.
pub type FontAssetMap = AssetMap<u64, (), ()>;

/// Audio files tracked by key.
pub type AudioAssetMap = AssetMap<u64, (), ()>;

/// Textures tracked by key, with their sizes once loaded.
pub type TextureAssetMap = AssetMap<u64, (), TextureSize>;

/// Textures tracked by key, with their sizes once loaded.
pub type TextureAssets = AssetMap<u64, (), TextureSize>;

/// Texture atlases tracked by key with the definition each is cut by.
pub type AtlasAssetMap = AssetMap<u64, AtlasDefinition, AtlasLoad>;

/// Texture atlases tracked by key with the definition each is cut by.
pub type TextureAtlasAssets = AssetMap<u64, AtlasDefinition, AtlasLoad>;

} // verus!
