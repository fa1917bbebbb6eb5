//! What a provider is known to support, per (base url, model): the session's
//! view of it and the persistent cache that carries it across sessions.
use vstd::prelude::*;

use crate::text::{
    chars_of, lemma_trail_count_char, slice_chars, string_from_chars, trail_count, trim,
    trim_chars, trim_end_char, trim_str,
};

verus! {

/// One message of the short chat history kept between requests.
#[derive(Clone, Debug, PartialEq, Eq)]
pub struct Gen3dChatHistoryMessage {
    pub role: String,
    pub content: String,
}

/// The per-session state of the AI connection: what the provider is known
/// to support (`None` while unknown), the id of the last `/responses` reply,
/// and a short chat history.
#[derive(Clone, Debug, PartialEq, Eq)]
pub struct Gen3dAiSessionState {
    pub responses_supported: Option<bool>,
    pub responses_stream_required: Option<bool>,
    pub responses_continuation_supported: Option<bool>,
    pub responses_background_supported: Option<bool>,
    pub responses_structured_outputs_supported: Option<bool>,
    pub chat_stream_required: Option<bool>,
    pub chat_structured_outputs_supported: Option<bool>,
    pub responses_previous_id: Option<String>,
    pub chat_history: Vec<Gen3dChatHistoryMessage>,
}

impl Gen3dAiSessionState {
    /// A fresh session: nothing known yet, no history.
    pub fn new() -> (s: Self)
        ensures
            session_flags(s) == unknown_flags(),
            s.responses_previous_id is None,
            s.chat_history@.len() == 0,
    {
        Gen3dAiSessionState {
            responses_supported: None,
            responses_stream_required: None,
            responses_continuation_supported: None,
            responses_background_supported: None,
            responses_structured_outputs_supported: None,
            chat_stream_required: None,
            chat_structured_outputs_supported: None,
            responses_previous_id: None,
            chat_history: Vec::new(),
        }
    }
}

/// The seven capability flags, as a value.
#[derive(Clone, Copy, Debug, PartialEq, Eq, Structural)]
pub struct OpenAiCapabilityFlagsSnapshot {
    pub responses_supported: Option<bool>,
    pub responses_stream_required: Option<bool>,
    pub responses_continuation_supported: Option<bool>,
    pub responses_background_supported: Option<bool>,
    pub responses_structured_outputs_supported: Option<bool>,
    pub chat_stream_required: Option<bool>,
    pub chat_structured_outputs_supported: Option<bool>,
}

/// One cache entry: the capability flags last seen for a (base url, model).
#[derive(Clone, Debug, PartialEq, Eq)]
pub struct OpenAiCapabilitiesCacheEntryV1 {
    pub base_url: String,
    pub model: String,
    pub responses_supported: Option<bool>,
    pub responses_stream_required: Option<bool>,
    pub responses_continuation_supported: Option<bool>,
    pub responses_background_supported: Option<bool>,
    pub responses_structured_outputs_supported: Option<bool>,
    pub chat_stream_required: Option<bool>,
    pub chat_structured_outputs_supported: Option<bool>,
}

/// The capability cache file's content.
#[derive(Clone, Debug, PartialEq, Eq)]
pub struct OpenAiCapabilitiesCacheV1 {
    pub version: u32,
    pub entries: Vec<OpenAiCapabilitiesCacheEntryV1>,
}

/// The only cache format version this library reads and writes.
pub const OPENAI_CAPABILITIES_CACHE_VERSION: u32 = 1;

/// All flags unknown.
pub open spec fn unknown_flags() -> OpenAiCapabilityFlagsSnapshot {
    OpenAiCapabilityFlagsSnapshot {
        responses_supported: None,
        responses_stream_required: None,
        responses_continuation_supported: None,
        responses_background_supported: None,
        responses_structured_outputs_supported: None,
        chat_stream_required: None,
        chat_structured_outputs_supported: None,
    }
}

/// The flags of a session.
pub open spec fn session_flags(s: Gen3dAiSessionState) -> OpenAiCapabilityFlagsSnapshot {
    OpenAiCapabilityFlagsSnapshot {
        responses_supported: s.responses_supported,
        responses_stream_required: s.responses_stream_required,
        responses_continuation_supported: s.responses_continuation_supported,
        responses_background_supported: s.responses_background_supported,
        responses_structured_outputs_supported: s.responses_structured_outputs_supported,
        chat_stream_required: s.chat_stream_required,
        chat_structured_outputs_supported: s.chat_structured_outputs_supported,
    }
}

/// The flags of a cache entry.
pub open spec fn entry_flags(e: OpenAiCapabilitiesCacheEntryV1) -> OpenAiCapabilityFlagsSnapshot {
    OpenAiCapabilityFlagsSnapshot {
        responses_supported: e.responses_supported,
        responses_stream_required: e.responses_stream_required,
        responses_continuation_supported: e.responses_continuation_supported,
        responses_background_supported: e.responses_background_supported,
        responses_structured_outputs_supported: e.responses_structured_outputs_supported,
        chat_stream_required: e.chat_stream_required,
        chat_structured_outputs_supported: e.chat_structured_outputs_supported,
    }
}

/// `a` if it is known, else `b`.
pub open spec fn or_else(a: Option<bool>, b: Option<bool>) -> Option<bool> {
    if a is Some {
        a
    } else {
        b
    }
}

/// Fills the unknown flags of `have` from `from`; known flags stay.
pub open spec fn fill_unknown(
    have: OpenAiCapabilityFlagsSnapshot,
    from: OpenAiCapabilityFlagsSnapshot,
) -> OpenAiCapabilityFlagsSnapshot {
    OpenAiCapabilityFlagsSnapshot {
        responses_supported: or_else(have.responses_supported, from.responses_supported),
        responses_stream_required: or_else(
            have.responses_stream_required,
            from.responses_stream_required,
        ),
        responses_continuation_supported: or_else(
            have.responses_continuation_supported,
            from.responses_continuation_supported,
        ),
        responses_background_supported: or_else(
            have.responses_background_supported,
            from.responses_background_supported,
        ),
        responses_structured_outputs_supported: or_else(
            have.responses_structured_outputs_supported,
            from.responses_structured_outputs_supported,
        ),
        chat_stream_required: or_else(have.chat_stream_required, from.chat_stream_required),
        chat_structured_outputs_supported: or_else(
            have.chat_structured_outputs_supported,
            from.chat_structured_outputs_supported,
        ),
    }
}

/// `base` with every flag that `news` knows replaced by `news`'s value.
pub open spec fn overlay_known(
    base: OpenAiCapabilityFlagsSnapshot,
    news: OpenAiCapabilityFlagsSnapshot,
) -> OpenAiCapabilityFlagsSnapshot {
    fill_unknown(news, base)
}

/// The cache key form of a base url: trimmed, trailing slashes removed.
pub open spec fn norm_base_url(s: Seq<char>) -> Seq<char> {
    trim_end_char(trim(s), '/')
}

/// The cache key form of a model name: trimmed.
pub open spec fn norm_model(s: Seq<char>) -> Seq<char> {
    trim(s)
}

/// An entry is for this (base url, model).
pub open spec fn entry_for(e: OpenAiCapabilitiesCacheEntryV1, url: Seq<char>, model: Seq<char>) -> bool {
    e.base_url@ == url && e.model@ == model
}

/// `i` is the first entry for this (base url, model).
pub open spec fn is_first_entry(
    entries: Seq<OpenAiCapabilitiesCacheEntryV1>,
    url: Seq<char>,
    model: Seq<char>,
    i: int,
) -> bool {
    &&& 0 <= i < entries.len()
    &&& entry_for(entries[i], url, model)
    &&& forall|j: int| 0 <= j < i ==> !entry_for(#[trigger] entries[j], url, model)
}

/// The position of the first entry for this (base url, model), if any.
pub open spec fn first_entry(
    entries: Seq<OpenAiCapabilitiesCacheEntryV1>,
    url: Seq<char>,
    model: Seq<char>,
) -> Option<int> {
    if exists|i: int| is_first_entry(entries, url, model, i) {
        Some(choose|i: int| is_first_entry(entries, url, model, i))
    } else {
        None
    }
}

/// The flags that a session has after hydration from `entries`: unknown
/// flags are filled from the first entry for the normalized (base url, model).
pub open spec fn hydrated_flags(
    have: OpenAiCapabilityFlagsSnapshot,
    base_url: Seq<char>,
    model: Seq<char>,
    entries: Seq<OpenAiCapabilitiesCacheEntryV1>,
) -> OpenAiCapabilityFlagsSnapshot {
    let u = norm_base_url(base_url);
    let m = norm_model(model);
    if u.len() == 0 || m.len() == 0 {
        have
    } else {
        match first_entry(entries, u, m) {
            Some(i) => fill_unknown(have, entry_flags(entries[i])),
            None => have,
        }
    }
}

/// Nothing of a session but its flags changes.
pub open spec fn same_but_flags(a: Gen3dAiSessionState, b: Gen3dAiSessionState) -> bool {
    a.responses_previous_id == b.responses_previous_id && a.chat_history == b.chat_history
}

proof fn lemma_first_entry_unique(
    entries: Seq<OpenAiCapabilitiesCacheEntryV1>,
    url: Seq<char>,
    model: Seq<char>,
    i: int,
)
    requires
        is_first_entry(entries, url, model, i),
    ensures
        first_entry(entries, url, model) == Some(i),
{
    let k = choose|k: int| is_first_entry(entries, url, model, k);
    if k < i {
        assert(!entry_for(entries[k], url, model));
    } else if i < k {
        assert(!entry_for(entries[i], url, model));
    }
}

/// Normalizes a base url for use as a cache key.
pub fn normalize_openai_base_url(value: &str) -> (out: String)
    ensures
        out@ == norm_base_url(value@),
{
    let t = trim_chars(value);
    let mut b = t.len();
    while b > 0 && t[b - 1] == '/'
        invariant
            b <= t.len(),
            forall|j: int| b <= j < t.len() ==> #[trigger] t@[j] == '/',
        decreases b,
    {
        b = b - 1;
    }
    proof {
        let k = (t.len() - b) as int;
        lemma_trail_count_char(t@, '/', k);
        assert(trim_end_char(t@, '/') =~= t@.subrange(0, b as int));
    }
    let piece = slice_chars(&t, 0, b);
    string_from_chars(&piece)
}

/// Normalizes a model name for use as a cache key.
pub fn normalize_openai_model(value: &str) -> (out: String)
    ensures
        out@ == norm_model(value@),
{
    trim_str(value)
}

impl OpenAiCapabilityFlagsSnapshot {
    /// The capability flags of a session.
    pub fn from_session(session: &Gen3dAiSessionState) -> (f: Self)
        ensures
            f == session_flags(*session),
    {
        OpenAiCapabilityFlagsSnapshot {
            responses_supported: session.responses_supported,
            responses_stream_required: session.responses_stream_required,
            responses_continuation_supported: session.responses_continuation_supported,
            responses_background_supported: session.responses_background_supported,
            responses_structured_outputs_supported: session.responses_structured_outputs_supported,
            chat_stream_required: session.chat_stream_required,
            chat_structured_outputs_supported: session.chat_structured_outputs_supported,
        }
    }
}

/// A cache as read from disk, made ready for lookups: a cache of another
/// format version is replaced by an empty one, and every entry's key is
/// normalized.
pub fn normalize_loaded_capabilities_cache(cache: OpenAiCapabilitiesCacheV1) -> (out:
    OpenAiCapabilitiesCacheV1)
    ensures
        out.version == OPENAI_CAPABILITIES_CACHE_VERSION,
        cache.version != OPENAI_CAPABILITIES_CACHE_VERSION ==> out.entries@.len() == 0,
        cache.version == OPENAI_CAPABILITIES_CACHE_VERSION ==> {
            &&& out.entries@.len() == cache.entries@.len()
            &&& forall|i: int|
                0 <= i < out.entries@.len() ==> {
                    &&& (#[trigger] out.entries@[i]).base_url@ == norm_base_url(
                        cache.entries@[i].base_url@,
                    )
                    &&& out.entries@[i].model@ == norm_model(cache.entries@[i].model@)
                    &&& entry_flags(out.entries@[i]) == entry_flags(cache.entries@[i])
                }
        },
{
    if cache.version != OPENAI_CAPABILITIES_CACHE_VERSION {
        return OpenAiCapabilitiesCacheV1 {
            version: OPENAI_CAPABILITIES_CACHE_VERSION,
            entries: Vec::new(),
        };
    }
    let mut cache = cache;
    let ghost orig = cache.entries@;
    let n = cache.entries.len();
    let mut i: usize = 0;
    while i < n
        invariant
            i <= n,
            n == cache.entries@.len(),
            cache.version == OPENAI_CAPABILITIES_CACHE_VERSION,
            forall|k: int|
                0 <= k < n ==> entry_flags(#[trigger] cache.entries@[k]) == entry_flags(
                    orig[k],
                ),
            forall|k: int|
                0 <= k < i ==> {
                    &&& (#[trigger] cache.entries@[k]).base_url@ == norm_base_url(
                        orig[k].base_url@,
                    )
                    &&& cache.entries@[k].model@ == norm_model(orig[k].model@)
                },
            forall|k: int|
                i <= k < n ==> (#[trigger] cache.entries@[k]).base_url == orig[k].base_url
                    && cache.entries@[k].model == orig[k].model,
        decreases n - i,
    {
        let url = normalize_openai_base_url(cache.entries[i].base_url.as_str());
        let model = normalize_openai_model(cache.entries[i].model.as_str());
        cache.entries[i].base_url = url;
        cache.entries[i].model = model;
        i = i + 1;
    }
    cache
}

/// Position of the first entry for this (normalized) base url and model.
fn find_entry(
    entries: &Vec<OpenAiCapabilitiesCacheEntryV1>,
    url: &String,
    model: &String,
) -> (r: Option<usize>)
    ensures
        match r {
            Some(i) => first_entry(entries@, url@, model@) == Some(i as int),
            None => first_entry(entries@, url@, model@) is None,
        },
{
    let mut i: usize = 0;
    while i < entries.len()
        invariant
            i <= entries.len(),
            forall|j: int| 0 <= j < i ==> !entry_for(#[trigger] entries@[j], url@, model@),
        decreases entries.len() - i,
    {
        if entries[i].base_url == *url && entries[i].model == *model {
            proof {
                lemma_first_entry_unique(entries@, url@, model@, i as int);
            }
            return Some(i);
        }
        i = i + 1;
    }
    assert(!exists|k: int| is_first_entry(entries@, url@, model@, k));
    None
}

/// Fills the session's unknown capability flags from the first cache entry
/// for its (normalized) base url and model; known flags are never replaced.
/// `cache` is the content of the cache file.
pub fn hydrate_session_capabilities_from_cache_path(
    session: &mut Gen3dAiSessionState,
    base_url: &str,
    model: &str,
    cache: &OpenAiCapabilitiesCacheV1,
)
    ensures
        session_flags(*final(session)) == hydrated_flags(
            session_flags(*old(session)),
            base_url@,
            model@,
            cache.entries@,
        ),
        same_but_flags(*final(session), *old(session)),
{
    let needs_hydration = session.responses_supported.is_none()
        || session.responses_stream_required.is_none()
        || session.responses_continuation_supported.is_none()
        || session.responses_background_supported.is_none()
        || session.responses_structured_outputs_supported.is_none()
        || session.chat_stream_required.is_none()
        || session.chat_structured_outputs_supported.is_none();
    if !needs_hydration {
        return;
    }
    let base_url = normalize_openai_base_url(base_url);
    let model = normalize_openai_model(model);
    if chars_of(base_url.as_str()).len() == 0 || chars_of(model.as_str()).len() == 0 {
        return;
    }
    let Some(idx) = find_entry(&cache.entries, &base_url, &model) else {
        return;
    };
    let entry = &cache.entries[idx];
    if session.responses_supported.is_none() {
        session.responses_supported = entry.responses_supported;
    }
    if session.responses_stream_required.is_none() {
        session.responses_stream_required = entry.responses_stream_required;
    }
    if session.responses_continuation_supported.is_none() {
        session.responses_continuation_supported = entry.responses_continuation_supported;
    }
    if session.responses_background_supported.is_none() {
        session.responses_background_supported = entry.responses_background_supported;
    }
    if session.responses_structured_outputs_supported.is_none() {
        session.responses_structured_outputs_supported =
        entry.responses_structured_outputs_supported;
    }
    if session.chat_stream_required.is_none() {
        session.chat_stream_required = entry.chat_stream_required;
    }
    if session.chat_structured_outputs_supported.is_none() {
        session.chat_structured_outputs_supported = entry.chat_structured_outputs_supported;
    }
}

/// The entries after a session's flags are persisted under a (normalized)
/// base url and model: the first entry for that key gets every flag the
/// session knows (others keep their cached value); without such an entry, a
/// new one is appended.
pub open spec fn persisted_entry_ok(
    e: OpenAiCapabilitiesCacheEntryV1,
    url: Seq<char>,
    model: Seq<char>,
    base: OpenAiCapabilityFlagsSnapshot,
    session: OpenAiCapabilityFlagsSnapshot,
) -> bool {
    &&& entry_for(e, url, model)
    &&& entry_flags(e) == overlay_known(base, session)
}

/// The cache after `persist_session_capabilities_to_cache_path`.
pub open spec fn persisted(
    old_entries: Seq<OpenAiCapabilitiesCacheEntryV1>,
    new_entries: Seq<OpenAiCapabilitiesCacheEntryV1>,
    base_url: Seq<char>,
    model: Seq<char>,
    session: OpenAiCapabilityFlagsSnapshot,
) -> bool {
    let u = norm_base_url(base_url);
    let m = norm_model(model);
    match first_entry(old_entries, u, m) {
        Some(i) => {
            &&& new_entries.len() == old_entries.len()
            &&& forall|j: int| 0 <= j < old_entries.len() && j != i ==> #[trigger] new_entries[j]
                == old_entries[j]
            &&& persisted_entry_ok(new_entries[i], u, m, entry_flags(old_entries[i]), session)
        },
        None => {
            &&& new_entries.len() == old_entries.len() + 1
            &&& forall|j: int| 0 <= j < old_entries.len() ==> #[trigger] new_entries[j]
                == old_entries[j]
            &&& persisted_entry_ok(new_entries.last(), u, m, unknown_flags(), session)
        },
    }
}

/// Records the session's known capability flags in `cache` (the content of
/// the cache file) under the normalized base url and model. Returns whether
/// the cache is to be written back; it is not when the key is empty, and then
/// the cache is unchanged.
pub fn persist_session_capabilities_to_cache_path(
    base_url: &str,
    model: &str,
    session: &Gen3dAiSessionState,
    cache: &mut OpenAiCapabilitiesCacheV1,
) -> (write: bool)
    ensures
        write == (norm_base_url(base_url@).len() > 0 && norm_model(model@).len() > 0),
        final(cache).version == old(cache).version,
        write ==> persisted(
            old(cache).entries@,
            final(cache).entries@,
            base_url@,
            model@,
            session_flags(*session),
        ),
        !write ==> final(cache).entries@ == old(cache).entries@,
{
    let base_url = normalize_openai_base_url(base_url);
    let model = normalize_openai_model(model);
    if chars_of(base_url.as_str()).len() == 0 || chars_of(model.as_str()).len() == 0 {
        return false;
    }
    let existing = find_entry(&cache.entries, &base_url, &model);
    let idx = match existing {
        Some(idx) => idx,
        None => {
            cache.entries.push(
                OpenAiCapabilitiesCacheEntryV1 {
                    base_url: base_url.clone(),
                    model: model.clone(),
                    responses_supported: None,
                    responses_stream_required: None,
                    responses_continuation_supported: None,
                    responses_background_supported: None,
                    responses_structured_outputs_supported: None,
                    chat_stream_required: None,
                    chat_structured_outputs_supported: None,
                },
            );
            cache.entries.len() - 1
        },
    };
    let entry = &mut cache.entries[idx];
    entry.base_url = base_url;
    entry.model = model;
    if session.responses_supported.is_some() {
        entry.responses_supported = session.responses_supported;
    }
    if session.responses_stream_required.is_some() {
        entry.responses_stream_required = session.responses_stream_required;
    }
    if session.responses_continuation_supported.is_some() {
        entry.responses_continuation_supported = session.responses_continuation_supported;
    }
    if session.responses_background_supported.is_some() {
        entry.responses_background_supported = session.responses_background_supported;
    }
    if session.responses_structured_outputs_supported.is_some() {
        entry.responses_structured_outputs_supported =
        session.responses_structured_outputs_supported;
    }
    if session.chat_stream_required.is_some() {
        entry.chat_stream_required = session.chat_stream_required;
    }
    if session.chat_structured_outputs_supported.is_some() {
        entry.chat_structured_outputs_supported = session.chat_structured_outputs_supported;
    }
    true
}

/// Persists the session's flags when they differ from `before` (the flags the
/// session had when the request began). Returns whether the cache is to be
/// written back.
pub fn persist_session_capabilities_if_changed(
    base_url: &str,
    model: &str,
    before: OpenAiCapabilityFlagsSnapshot,
    session: &Gen3dAiSessionState,
    cache: &mut OpenAiCapabilitiesCacheV1,
) -> (write: bool)
    ensures
        session_flags(*session) == before ==> !write && final(cache).entries@ == old(
            cache,
        ).entries@,
        session_flags(*session) != before ==> {
            &&& write == (norm_base_url(base_url@).len() > 0 && norm_model(model@).len() > 0)
            &&& write ==> persisted(
                old(cache).entries@,
                final(cache).entries@,
                base_url@,
                model@,
                session_flags(*session),
            )
            &&& !write ==> final(cache).entries@ == old(cache).entries@
        },
        final(cache).version == old(cache).version,
{
    let after = OpenAiCapabilityFlagsSnapshot::from_session(session);
    if after != before {
        persist_session_capabilities_to_cache_path(base_url, model, session, cache)
    } else {
        false
    }
}

proof fn lemma_match_has_first(
    entries: Seq<OpenAiCapabilitiesCacheEntryV1>,
    url: Seq<char>,
    model: Seq<char>,
    j: int,
)
    requires
        0 <= j < entries.len(),
        entry_for(entries[j], url, model),
    ensures
        first_entry(entries, url, model) is Some,
    decreases j,
{
    if exists|k: int| 0 <= k < j && entry_for(#[trigger] entries[k], url, model) {
        let k = choose|k: int| 0 <= k < j && entry_for(#[trigger] entries[k], url, model);
        lemma_match_has_first(entries, url, model, k);
    } else {
        assert(is_first_entry(entries, url, model, j));
    }
}

/// Hydration never replaces a flag that the session already knows.
pub proof fn lemma_hydrate_keeps_known(
    have: OpenAiCapabilityFlagsSnapshot,
    base_url: Seq<char>,
    model: Seq<char>,
    entries: Seq<OpenAiCapabilitiesCacheEntryV1>,
)
    ensures
        ({
            let h = hydrated_flags(have, base_url, model, entries);
            &&& have.responses_supported is Some ==> h.responses_supported == have.responses_supported
            &&& have.responses_stream_required is Some ==> h.responses_stream_required
                == have.responses_stream_required
            &&& have.responses_continuation_supported is Some ==> h.responses_continuation_supported
                == have.responses_continuation_supported
            &&& have.responses_background_supported is Some ==> h.responses_background_supported
                == have.responses_background_supported
            &&& have.responses_structured_outputs_supported is Some
                ==> h.responses_structured_outputs_supported
                == have.responses_structured_outputs_supported
            &&& have.chat_stream_required is Some ==> h.chat_stream_required
                == have.chat_stream_required
            &&& have.chat_structured_outputs_supported is Some
                ==> h.chat_structured_outputs_supported == have.chat_structured_outputs_supported
        }),
{
}

/// Hydrating a second time from the same cache changes nothing.
pub proof fn lemma_hydrate_idempotent(
    have: OpenAiCapabilityFlagsSnapshot,
    base_url: Seq<char>,
    model: Seq<char>,
    entries: Seq<OpenAiCapabilitiesCacheEntryV1>,
)
    ensures
        hydrated_flags(hydrated_flags(have, base_url, model, entries), base_url, model, entries)
            == hydrated_flags(have, base_url, model, entries),
{
}

/// What a persisted cache gives back: hydrating a session that knows nothing,
/// under the same base url and model, yields every flag the persisted session
/// knew, and for the others the value the cache held before (unknown if it
/// had no entry for that key).
pub proof fn lemma_persist_then_hydrate(
    old_entries: Seq<OpenAiCapabilitiesCacheEntryV1>,
    new_entries: Seq<OpenAiCapabilitiesCacheEntryV1>,
    base_url: Seq<char>,
    model: Seq<char>,
    session: OpenAiCapabilityFlagsSnapshot,
)
    requires
        norm_base_url(base_url).len() > 0,
        norm_model(model).len() > 0,
        persisted(old_entries, new_entries, base_url, model, session),
    ensures
        hydrated_flags(unknown_flags(), base_url, model, new_entries) == overlay_known(
            match first_entry(old_entries, norm_base_url(base_url), norm_model(model)) {
                Some(i) => entry_flags(old_entries[i]),
                None => unknown_flags(),
            },
            session,
        ),
{
    let u = norm_base_url(base_url);
    let m = norm_model(model);
    match first_entry(old_entries, u, m) {
        Some(i) => {
            assert(is_first_entry(old_entries, u, m, i)) by {
                assert(exists|k: int| is_first_entry(old_entries, u, m, k));
            }
            assert forall|j: int| 0 <= j < i implies !entry_for(#[trigger] new_entries[j], u, m) by {
                assert(new_entries[j] == old_entries[j]);
            }
            assert(is_first_entry(new_entries, u, m, i));
            lemma_first_entry_unique(new_entries, u, m, i);
        },
        None => {
            let n = old_entries.len() as int;
            assert forall|j: int| 0 <= j < n implies !entry_for(#[trigger] new_entries[j], u, m) by {
                assert(new_entries[j] == old_entries[j]);
                if entry_for(old_entries[j], u, m) {
                    lemma_match_has_first(old_entries, u, m, j);
                }
            }
            assert(new_entries[n] == new_entries.last());
            assert(is_first_entry(new_entries, u, m, n));
            lemma_first_entry_unique(new_entries, u, m, n);
        },
    }
}

/// Some capability of the session is still unknown.
pub open spec fn needs_hydration(s: Gen3dAiSessionState) -> bool {
    s.responses_supported is None || s.responses_stream_required is None || s.responses_continuation_supported
        is None || s.responses_background_supported is None || s.responses_structured_outputs_supported is None
        || s.chat_stream_required is None || s.chat_structured_outputs_supported is None
}

/// Whether the cache is worth reading for a session: only when some
/// capability is unknown and the base url and model give a key.
pub fn should_read_capabilities_cache(session: &Gen3dAiSessionState, base_url: &str, model: &str) -> (b: bool)
    ensures
        b == (needs_hydration(*session) && norm_base_url(base_url@).len() > 0 && norm_model(model@).len() > 0),
{
    let needs = session.responses_supported.is_none() || session.responses_stream_required.is_none()
        || session.responses_continuation_supported.is_none() || session.responses_background_supported.is_none()
        || session.responses_structured_outputs_supported.is_none() || session.chat_stream_required.is_none()
        || session.chat_structured_outputs_supported.is_none();
    if !needs {
        return false;
    }
    capabilities_cache_key_valid(base_url, model)
}

/// Whether the base url and model give a cache key (both non-empty once
/// normalized).
pub fn capabilities_cache_key_valid(base_url: &str, model: &str) -> (b: bool)
    ensures
        b == (norm_base_url(base_url@).len() > 0 && norm_model(model@).len() > 0),
{
    let u = normalize_openai_base_url(base_url);
    let m = normalize_openai_model(model);
    chars_of(u.as_str()).len() > 0 && chars_of(m.as_str()).len() > 0
}

} // verus!
