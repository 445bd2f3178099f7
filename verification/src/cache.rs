//! The cache of thumbnails: which files hold what, which of them are still of use, and when a
//! thumbnail has to be taken again.

use std::collections::hash_map::DefaultHasher;
use std::hash::Hasher;

use vstd::prelude::*;
use vstd::std_specs::hash::*;

use crate::pixels;
use crate::text;
use crate::windows::WindowInfo;

verus! {

/// The version of the files. Thumbnails of another version are taken again.
pub const CACHE_FORMAT_VERSION: u32 = 2;

/// The directory of the cache, below the directory that the user keeps caches in.
pub fn cache_directory() -> (name: &'static str)
    ensures
        name@ == "tobyscope-x11"@,
{
    "tobyscope-x11"
}

/// What is stored beside a thumbnail.
#[derive(Debug)]
pub struct ThumbnailMetadata {
    pub format_version: u32,
    pub key: String,
    pub display: String,
    pub window_id: u32,
    pub i3_con_id: Option<i64>,
    pub workspace: String,
    pub title: String,
    pub class: Option<String>,
    pub width: u16,
    pub height: u16,
}

/// The key of a thumbnail that a window had under an earlier name.
#[derive(Debug)]
pub struct KnownKey {
    pub window_id: u32,
    pub i3_con_id: Option<i64>,
    pub key: String,
}

/// The cache, as far as it concerns the windows that are there.
#[derive(Debug)]
pub struct ThumbnailCache {
    pub display: String,
    /// The keys of the files that are kept, each once.
    pub valid_keys: Vec<String>,
    /// What the stored metadata say of the windows that are there, in the order in which they
    /// were read.
    pub compatible_keys: Vec<KnownKey>,
    /// How old a thumbnail may become, in seconds.
    pub refresh_after_seconds: u64,
    pub debug: bool,
}

/// What is found of a stored thumbnail.
#[derive(Debug)]
pub struct CacheEntry {
    /// The image is there, and it is known when it was written.
    pub present: bool,
    /// How long ago that was, in nanoseconds; nothing if the clock says it has yet to come.
    pub age_ns: Option<u128>,
    /// The metadata, if they can be read.
    pub metadata: Option<ThumbnailMetadata>,
}

/// The display that the cache is kept for.
pub open spec fn display_of(variable: Option<String>) -> Seq<char> {
    match variable {
        Some(name) => name@,
        None => "unknown-display"@,
    }
}

/// The display that the cache is kept for, if the environment names one.
pub fn display_key(variable: Option<String>) -> (display: String)
    ensures
        display@ == (match variable {
            Some(name) => name@,
            None => "unknown-display"@,
        }),
        display@ == display_of(variable),
{
    match variable {
        Some(name) => name,
        None => "unknown-display".to_owned(),
    }
}

/// A character that stands for itself in the name of a directory.
pub open spec fn plain_char(ch: char) -> bool {
    ||| 'a' <= ch <= 'z'
    ||| 'A' <= ch <= 'Z'
    ||| '0' <= ch <= '9'
    ||| ch == '-'
    ||| ch == '_'
    ||| ch == '.'
}

/// A character of the name of a directory.
pub open spec fn sanitized_char(ch: char) -> char {
    if plain_char(ch) {
        ch
    } else {
        '_'
    }
}

/// Text as the name of a directory.
pub open spec fn sanitized(value: Seq<char>) -> Seq<char> {
    value.map_values(|ch: char| sanitized_char(ch))
}

/// Makes text the name of a directory: other characters than letters and digits of ASCII, `-`,
/// `_` and `.` become `_`.
pub fn sanitize_path_component(value: &str) -> (name: String)
    ensures
        name@ == sanitized(value@),
{
    let chars: Vec<char> = text::chars_of(value);
    let mut name: String = String::new();
    let mut i: usize = 0;
    assert(name@ =~= sanitized(value@.take(0)));
    while i < chars.len()
        invariant
            i <= chars@.len(),
            chars@ == value@,
            name@ == sanitized(value@.take(i as int)),
        decreases chars@.len() - i,
    {
        let ch: char = chars[i];
        let plain: bool = ('a' <= ch && ch <= 'z') || ('A' <= ch && ch <= 'Z') || ('0' <= ch && ch
            <= '9') || ch == '-' || ch == '_' || ch == '.';
        if plain {
            name.push(ch);
        } else {
            name.push('_');
        }
        i += 1;
        assert(name@ =~= sanitized(value@.take(i as int)));
    }
    assert(value@.take(i as int) =~= value@);
    name
}

/// The name of a directory has no slash in it, and sanitizing it again changes nothing.
pub proof fn law_sanitized_names_are_safe(value: Seq<char>)
    ensures
        sanitized(value).len() == value.len(),
        forall|i: int| 0 <= i < value.len() ==> plain_char(#[trigger] sanitized(value)[i]),
        sanitized(sanitized(value)) == sanitized(value),
{
    assert(sanitized(sanitized(value)) =~= sanitized(value));
}

/// Where the last dot of a name stands.
pub open spec fn last_dot(name: Seq<char>) -> Option<int>
    decreases name.len(),
{
    if name.len() == 0 {
        None
    } else if name.last() == '.' {
        Some(name.len() - 1)
    } else {
        last_dot(name.drop_last())
    }
}

/// A file name without its extension, and the extension, if it has one: what follows the last
/// dot, unless the name starts with that.
pub open spec fn parts_of(name: Seq<char>) -> (Seq<char>, Option<Seq<char>>) {
    match last_dot(name) {
        Some(dot) => {
            if dot == 0 || name == ".."@ {
                (name, None)
            } else {
                (name.take(dot), Some(name.skip(dot + 1)))
            }
        },
        None => (name, None),
    }
}

fn split_name(name: &str) -> (parts: (String, Option<String>))
    ensures
        parts.0@ == parts_of(name@).0,
        text::option_view(parts.1) == parts_of(name@).1,
{
    let chars: Vec<char> = text::chars_of(name);
    let mut i: usize = chars.len();
    assert(name@.take(i as int) =~= name@);
    while i > 0
        invariant
            i <= chars@.len(),
            chars@ == name@,
            last_dot(name@) == last_dot(name@.take(i as int)),
        decreases i,
    {
        assert(name@.take(i as int).drop_last() =~= name@.take(i - 1));
        if chars[i - 1] == '.' {
            if i == 1 || text::same_text(name, "..") {
                return (name.to_owned(), None);
            }
            let stem: String = text::string_of(&chars, 0, i - 1);
            let extension: String = text::string_of(&chars, i, chars.len());
            assert(stem@ =~= name@.take(i - 1));
            assert(extension@ =~= name@.skip(i as int));
            return (stem, Some(extension));
        }
        i -= 1;
    }
    (name.to_owned(), None)
}

/// The name is that of a file of the cache.
pub open spec fn is_cache_name(name: Seq<char>) -> bool {
    parts_of(name).1 == Some("png"@) || parts_of(name).1 == Some("json"@)
}

/// Whether the name is that of a file of the cache.
pub fn is_cache_file(name: &str) -> (result: bool)
    ensures
        result == is_cache_name(name@),
{
    match split_name(name).1 {
        Some(extension) => {
            text::same_text(extension.as_str(), "png") || text::same_text(
                extension.as_str(),
                "json",
            )
        },
        None => false,
    }
}

/// Whether the name is that of a file of metadata.
pub fn is_metadata_file(name: &str) -> (result: bool)
    ensures
        result == (parts_of(name@).1 == Some("json"@)),
{
    match split_name(name).1 {
        Some(extension) => text::same_text(extension.as_str(), "json"),
        None => false,
    }
}

/// A signed 64-bit number read as an unsigned one.
pub open spec fn unsigned(number: i64) -> nat {
    if number < 0 {
        (number + 0x1_0000_0000_0000_0000) as nat
    } else {
        number as nat
    }
}

/// What is hashed for the key of a window: the display, closed by a byte that no text holds, the
/// version of the files, the window and its container, numbers with the low byte first.
pub open spec fn hashed(display: Seq<u8>, window: u32, con_id: Option<i64>) -> Seq<Seq<u8>> {
    let common = seq![
        display,
        seq![0xffu8],
        pixels::little_bytes(CACHE_FORMAT_VERSION as nat, 4),
        pixels::little_bytes(window as nat, 4),
    ];
    match con_id {
        None => common.push(pixels::little_bytes(0, 8)),
        Some(id) => common.push(pixels::little_bytes(1, 8)).push(
            pixels::little_bytes(unsigned(id), 8),
        ),
    }
}

/// The key of a window's thumbnail: sixteen digits.
pub open spec fn key_of(display: Seq<char>, window: u32, con_id: Option<i64>) -> Seq<char> {
    let hash = DefaultHasher::spec_finish(
        hashed(vstd::utf8::encode_utf8(display), window, con_id),
    );
    text::hex(hash as nat, 16)
}

fn low_bytes(number: u64, count: usize) -> (bytes: Vec<u8>)
    requires
        count <= 8,
    ensures
        bytes@ == pixels::little_bytes(number as nat, count as nat),
    decreases count,
{
    if count == 0 {
        let bytes: Vec<u8> = Vec::new();
        assert(bytes@ =~= pixels::little_bytes(number as nat, 0));
        bytes
    } else {
        let mut bytes: Vec<u8> = Vec::new();
        bytes.push((number % 256) as u8);
        let mut rest: Vec<u8> = low_bytes(number / 256, count - 1);
        bytes.append(&mut rest);
        assert(bytes@ =~= pixels::little_bytes(number as nat, count as nat));
        bytes
    }
}

/// The key of a window's thumbnail on a display.
pub fn cache_key(display: &str, window: &WindowInfo) -> (key: String)
    ensures
        key@ == key_of(display@, window.id, window.i3_con_id),
{
    let mut hasher: DefaultHasher = DefaultHasher::new();
    hasher.write(display.as_bytes());
    let mark: Vec<u8> = vec![0xff];
    assert(mark@ =~= seq![0xffu8]);
    hasher.write(mark.as_slice());
    hasher.write(low_bytes(CACHE_FORMAT_VERSION as u64, 4).as_slice());
    hasher.write(low_bytes(window.id as u64, 4).as_slice());
    match window.i3_con_id {
        None => hasher.write(low_bytes(0, 8).as_slice()),
        Some(id) => {
            hasher.write(low_bytes(1, 8).as_slice());
            let number: u64 = if id < 0 {
                (id as i128 + 0x1_0000_0000_0000_0000) as u64
            } else {
                id as u64
            };
            hasher.write(low_bytes(number, 8).as_slice());
        },
    }
    assert(hasher@ =~= hashed(
        vstd::utf8::encode_utf8(display@),
        window.id,
        window.i3_con_id,
    ));
    let mut key: String = String::new();
    text::push_hex(&mut key, hasher.finish(), 16);
    assert(key@ =~= key_of(display@, window.id, window.i3_con_id));
    key
}

/// `key` stands in the list.
pub open spec fn has_key(keys: Seq<String>, key: Seq<char>) -> bool {
    exists|i: int| 0 <= i < keys.len() && (#[trigger] keys[i])@ == key
}

/// No key stands in the list twice.
pub open spec fn all_different(keys: Seq<String>) -> bool {
    forall|i: int, j: int|
        0 <= i < j < keys.len() ==> (#[trigger] keys[i])@ != (#[trigger] keys[j])@
}

fn holds_key(keys: &Vec<String>, key: &str) -> (found: bool)
    ensures
        found == has_key(keys@, key@),
{
    let mut i: usize = 0;
    while i < keys.len()
        invariant
            i <= keys@.len(),
            forall|j: int| 0 <= j < i ==> (#[trigger] keys@[j])@ != key@,
        decreases keys@.len() - i,
    {
        if text::same_text(keys[i].as_str(), key) {
            assert(keys@[i as int]@ == key@);
            return true;
        }
        i += 1;
    }
    false
}

fn add_key(keys: &mut Vec<String>, key: String)
    requires
        all_different(old(keys)@),
    ensures
        all_different(final(keys)@),
        forall|name: Seq<char>|
            has_key(final(keys)@, name) <==> has_key(old(keys)@, name) || name == key@,
{
    if holds_key(keys, key.as_str()) {
        return ;
    }
    let ghost before = keys@;
    keys.push(key);
    assert forall|name: Seq<char>|
        has_key(keys@, name) <==> has_key(before, name) || name == key@ by {
        if has_key(before, name) {
            let i = choose|i: int| 0 <= i < before.len() && (#[trigger] before[i])@ == name;
            assert(keys@[i]@ == name);
        }
        if name == key@ {
            assert(keys@[before.len() as int]@ == name);
        }
        if has_key(keys@, name) && name != key@ {
            let i = choose|i: int| 0 <= i < keys@.len() && (#[trigger] keys@[i])@ == name;
            assert(before[i]@ == name);
        }
    }
    assert forall|i: int, j: int| 0 <= i < j < keys@.len() implies (#[trigger] keys@[i])@ != (
    #[trigger] keys@[j])@ by {
        if j == before.len() {
            assert(before[i]@ != key@);
        }
    }
}

/// A window of that number and container is there.
pub open spec fn is_current(
    windows: Seq<WindowInfo>,
    window_id: u32,
    i3_con_id: Option<i64>,
) -> bool {
    exists|i: int|
        0 <= i < windows.len() && (#[trigger] windows[i]).id == window_id && windows[i].i3_con_id
            == i3_con_id
}

fn same_container(a: Option<i64>, b: Option<i64>) -> (same: bool)
    ensures
        same == (a == b),
{
    match (a, b) {
        (Some(x), Some(y)) => x == y,
        (None, None) => true,
        _ => false,
    }
}

fn current(windows: &[WindowInfo], window_id: u32, i3_con_id: Option<i64>) -> (found: bool)
    ensures
        found == is_current(windows@, window_id, i3_con_id),
{
    let mut i: usize = 0;
    while i < windows.len()
        invariant
            i <= windows@.len(),
            forall|j: int|
                0 <= j < i ==> !((#[trigger] windows@[j]).id == window_id && windows@[j].i3_con_id
                    == i3_con_id),
        decreases windows@.len() - i,
    {
        if windows[i].id == window_id && same_container(windows[i].i3_con_id, i3_con_id) {
            return true;
        }
        i += 1;
    }
    false
}

/// The key is that of a window that is there.
pub open spec fn is_window_key(
    windows: Seq<WindowInfo>,
    display: Seq<char>,
    key: Seq<char>,
) -> bool {
    exists|i: int|
        0 <= i < windows.len() && key_of(
            display,
            (#[trigger] windows[i]).id,
            windows[i].i3_con_id,
        ) == key
}

/// The key is in stored metadata of a window that is there.
pub open spec fn is_stored_key(
    windows: Seq<WindowInfo>,
    stored: Seq<ThumbnailMetadata>,
    key: Seq<char>,
) -> bool {
    exists|i: int|
        0 <= i < stored.len() && is_current(
            windows,
            (#[trigger] stored[i]).window_id,
            stored[i].i3_con_id,
        ) && stored[i].key@ == key
}

/// What stored metadata say of the windows that are there.
pub open spec fn known_keys(
    windows: Seq<WindowInfo>,
    stored: Seq<ThumbnailMetadata>,
) -> Seq<KnownKey>
    decreases stored.len(),
{
    if stored.len() == 0 {
        seq![]
    } else {
        let before = known_keys(windows, stored.drop_last());
        let last = stored.last();
        if is_current(windows, last.window_id, last.i3_con_id) {
            before.push(
                KnownKey {
                    window_id: last.window_id,
                    i3_con_id: last.i3_con_id,
                    key: last.key,
                },
            )
        } else {
            before
        }
    }
}

/// The keys that are known of one window, in their order.
pub open spec fn keys_known(
    known: Seq<KnownKey>,
    window_id: u32,
    i3_con_id: Option<i64>,
) -> Seq<Seq<char>>
    decreases known.len(),
{
    if known.len() == 0 {
        seq![]
    } else {
        let before = keys_known(known.drop_last(), window_id, i3_con_id);
        if known.last().window_id == window_id && known.last().i3_con_id == i3_con_id {
            before.push(known.last().key@)
        } else {
            before
        }
    }
}

/// A file name for a key.
pub open spec fn file_name(key: Seq<char>, extension: Seq<char>) -> Seq<char> {
    key + "."@ + extension
}

fn name_with(key: &str, extension: &str) -> (name: String)
    ensures
        name@ == file_name(key@, extension@),
{
    let mut name: String = key.to_owned();
    name.append(".");
    name.append(extension);
    name
}

/// What a stored thumbnail says about being taken again: nothing if there is none; that it has
/// to be, if it is too old, if its metadata cannot be read or are of another version, or if the
/// window has another size now.
pub open spec fn entry_refresh(
    entry: CacheEntry,
    window: WindowInfo,
    refresh_after_seconds: u64,
) -> Option<bool> {
    if !entry.present {
        None
    } else if entry.age_ns is Some && entry.age_ns->0 > refresh_after_seconds * 1_000_000_000 {
        Some(true)
    } else {
        match entry.metadata {
            None => Some(true),
            Some(metadata) => Some(
                metadata.format_version != CACHE_FORMAT_VERSION || metadata.width
                    != window.geometry.width || metadata.height != window.geometry.height,
            ),
        }
    }
}

/// What the first thumbnail that is there says, and that one has to be taken if none is.
pub open spec fn refresh_needed(
    entries: Seq<CacheEntry>,
    window: WindowInfo,
    refresh_after_seconds: u64,
) -> bool
    decreases entries.len(),
{
    if entries.len() == 0 {
        true
    } else {
        match entry_refresh(entries[0], window, refresh_after_seconds) {
            Some(needed) => needed,
            None => refresh_needed(entries.skip(1), window, refresh_after_seconds),
        }
    }
}

/// The files that are written for a thumbnail. Each is written under a temporary name and then
/// takes its own.
#[derive(Debug)]
pub struct StorePlan {
    pub image_temporary: String,
    pub image: String,
    pub metadata_temporary: String,
    pub metadata_file: String,
    pub metadata: ThumbnailMetadata,
}

impl ThumbnailCache {
    /// No key is kept twice.
    pub open spec fn sound(self) -> bool {
        all_different(self.valid_keys@)
    }

    /// A cache for these windows on a display, with the metadata that are stored there. The keys
    /// of the windows are kept, and those of all metadata about them.
    pub fn new(
        windows: &[WindowInfo],
        display: String,
        stored: &Vec<ThumbnailMetadata>,
        refresh_after_seconds: u64,
        debug: bool,
    ) -> (cache: ThumbnailCache)
        ensures
            cache.sound(),
            cache.display == display,
            forall|key: Seq<char>|
                has_key(cache.valid_keys@, key) <==> is_window_key(windows@, display@, key)
                    || is_stored_key(windows@, stored@, key),
            cache.compatible_keys@ == known_keys(windows@, stored@),
            cache.refresh_after_seconds == refresh_after_seconds,
            cache.debug == debug,
    {
        let mut valid_keys: Vec<String> = Vec::new();
        let mut i: usize = 0;
        assert forall|key: Seq<char>|
            has_key(valid_keys@, key) <==> is_window_key(windows@.take(0), display@, key) by {}
        while i < windows.len()
            invariant
                i <= windows@.len(),
                all_different(valid_keys@),
                forall|key: Seq<char>|
                    has_key(valid_keys@, key) <==> is_window_key(
                        windows@.take(i as int),
                        display@,
                        key,
                    ),
            decreases windows@.len() - i,
        {
            let ghost before = valid_keys@;
            add_key(&mut valid_keys, cache_key(display.as_str(), &windows[i]));
            proof {
                let less = windows@.take(i as int);
                let more = windows@.take(i + 1);
                assert forall|key: Seq<char>|
                    has_key(valid_keys@, key) <==> is_window_key(more, display@, key) by {
                    if is_window_key(less, display@, key) {
                        let k = choose|k: int|
                            0 <= k < less.len() && key_of(
                                display@,
                                (#[trigger] less[k]).id,
                                less[k].i3_con_id,
                            ) == key;
                        assert(more[k] == less[k]);
                    }
                    if is_window_key(more, display@, key) {
                        let k = choose|k: int|
                            0 <= k < more.len() && key_of(
                                display@,
                                (#[trigger] more[k]).id,
                                more[k].i3_con_id,
                            ) == key;
                        if k < i {
                            assert(less[k] == more[k]);
                        }
                    }
                    if key == key_of(
                        display@,
                        windows@[i as int].id,
                        windows@[i as int].i3_con_id,
                    ) {
                        assert(more[i as int] == windows@[i as int]);
                    }
                }
            }
            i += 1;
        }
        assert(windows@.take(i as int) =~= windows@);
        let mut compatible_keys: Vec<KnownKey> = Vec::new();
        let mut j: usize = 0;
        assert(stored@.take(0) =~= seq![]);
        while j < stored.len()
            invariant
                j <= stored@.len(),
                all_different(valid_keys@),
                forall|key: Seq<char>|
                    has_key(valid_keys@, key) <==> is_window_key(windows@, display@, key)
                        || is_stored_key(windows@, stored@.take(j as int), key),
                compatible_keys@ == known_keys(windows@, stored@.take(j as int)),
            decreases stored@.len() - j,
        {
            let metadata: &ThumbnailMetadata = &stored[j];
            let ghost before = valid_keys@;
            let kept: bool = current(windows, metadata.window_id, metadata.i3_con_id);
            if kept {
                add_key(&mut valid_keys, metadata.key.clone());
                compatible_keys.push(
                    KnownKey {
                        window_id: metadata.window_id,
                        i3_con_id: metadata.i3_con_id,
                        key: metadata.key.clone(),
                    },
                );
            }
            proof {
                let less = stored@.take(j as int);
                let more = stored@.take(j + 1);
                assert(more.drop_last() =~= less);
                assert(more.last() == *metadata);
                assert forall|key: Seq<char>|
                    has_key(valid_keys@, key) <==> is_window_key(windows@, display@, key)
                        || is_stored_key(windows@, more, key) by {
                    if is_stored_key(windows@, less, key) {
                        let k = choose|k: int|
                            0 <= k < less.len() && is_current(
                                windows@,
                                (#[trigger] less[k]).window_id,
                                less[k].i3_con_id,
                            ) && less[k].key@ == key;
                        assert(more[k] == less[k]);
                    }
                    if is_stored_key(windows@, more, key) {
                        let k = choose|k: int|
                            0 <= k < more.len() && is_current(
                                windows@,
                                (#[trigger] more[k]).window_id,
                                more[k].i3_con_id,
                            ) && more[k].key@ == key;
                        if k < j {
                            assert(less[k] == more[k]);
                        }
                    }
                    if kept && key == metadata.key@ {
                        assert(more[j as int] == *metadata);
                    }
                }
            }
            j += 1;
        }
        assert(stored@.take(j as int) =~= stored@);
        ThumbnailCache { display, valid_keys, compatible_keys, refresh_after_seconds, debug }
    }

    /// The keys under which the thumbnail of a window may stand: its own, and then those that it
    /// had before.
    pub open spec fn keys_for(self, window: WindowInfo) -> Seq<Seq<char>> {
        seq![key_of(self.display@, window.id, window.i3_con_id)] + keys_known(
            self.compatible_keys@,
            window.id,
            window.i3_con_id,
        )
    }

    /// The keys to look for the thumbnail of a window under, in turn.
    pub fn keys(&self, window: &WindowInfo) -> (keys: Vec<String>)
        ensures
            text::views(keys@) == self.keys_for(*window),
    {
        let mut keys: Vec<String> = Vec::new();
        keys.push(cache_key(self.display.as_str(), window));
        let ghost own = seq![key_of(self.display@, window.id, window.i3_con_id)];
        let mut i: usize = 0;
        assert(self.compatible_keys@.take(0) =~= seq![]);
        assert(text::views(keys@) =~= own + keys_known(seq![], window.id, window.i3_con_id));
        while i < self.compatible_keys.len()
            invariant
                i <= self.compatible_keys@.len(),
                text::views(keys@) == own + keys_known(
                    self.compatible_keys@.take(i as int),
                    window.id,
                    window.i3_con_id,
                ),
            decreases self.compatible_keys@.len() - i,
        {
            let known: &KnownKey = &self.compatible_keys[i];
            let ghost before = keys@;
            assert(self.compatible_keys@.take(i + 1).drop_last() =~= self.compatible_keys@.take(
                i as int,
            ));
            if known.window_id == window.id && same_container(
                known.i3_con_id,
                window.i3_con_id,
            ) {
                keys.push(known.key.clone());
                assert(text::views(keys@) =~= text::views(before).push(known.key@));
            }
            assert(text::views(keys@) =~= own + keys_known(
                self.compatible_keys@.take(i + 1),
                window.id,
                window.i3_con_id,
            ));
            i += 1;
        }
        assert(self.compatible_keys@.take(i as int) =~= self.compatible_keys@);
        keys
    }

    /// The name of the image file of a key.
    pub fn png_path_for_key(&self, key: &str) -> (name: String)
        ensures
            name@ == file_name(key@, "png"@),
    {
        name_with(key, "png")
    }

    /// The name of the metadata file of a key.
    pub fn metadata_path_for_key(&self, key: &str) -> (name: String)
        ensures
            name@ == file_name(key@, "json"@),
    {
        name_with(key, "json")
    }

    /// A file of the cache that is of no use any more.
    pub open spec fn is_stale_name(self, name: Seq<char>) -> bool {
        is_cache_name(name) && !has_key(self.valid_keys@, parts_of(name).0)
    }

    /// The files of the cache that are of no use any more, in their order.
    pub open spec fn stale_names(self, names: Seq<Seq<char>>) -> Seq<Seq<char>>
        decreases names.len(),
    {
        if names.len() == 0 {
            seq![]
        } else {
            let before = self.stale_names(names.drop_last());
            if self.is_stale_name(names.last()) {
                before.push(names.last())
            } else {
                before
            }
        }
    }

    /// Whether a file is to be removed from the cache.
    fn prunes(&self, name: &str) -> (result: bool)
        ensures
            result == self.is_stale_name(name@),
    {
        is_cache_file(name) && !holds_key(&self.valid_keys, split_name(name).0.as_str())
    }

    /// The files to remove from the cache, out of those that are there.
    pub fn prune(&self, names: &Vec<String>) -> (stale: Vec<String>)
        ensures
            text::views(stale@) == self.stale_names(text::views(names@)),
    {
        let mut stale: Vec<String> = Vec::new();
        let mut i: usize = 0;
        let ghost all = text::views(names@);
        assert(all.take(0) =~= seq![]);
        assert(text::views(stale@) =~= self.stale_names(all.take(0)));
        while i < names.len()
            invariant
                i <= names@.len(),
                all == text::views(names@),
                text::views(stale@) == self.stale_names(all.take(i as int)),
            decreases names@.len() - i,
        {
            let ghost before = stale@;
            assert(all.take(i + 1).drop_last() =~= all.take(i as int));
            assert(all[i as int] == names@[i as int]@);
            if self.prunes(names[i].as_str()) {
                stale.push(names[i].clone());
                assert(text::views(stale@) =~= text::views(before).push(names@[i as int]@));
            }
            i += 1;
        }
        assert(all.take(i as int) =~= all);
        stale
    }

    /// What a stored thumbnail says about being taken again.
    pub fn cached_entry_needs_refresh(&self, window: &WindowInfo, entry: &CacheEntry) -> (needed:
        Option<bool>)
        ensures
            needed == entry_refresh(*entry, *window, self.refresh_after_seconds),
    {
        if !entry.present {
            return None;
        }
        let limit: u128 = self.refresh_after_seconds as u128 * 1_000_000_000;
        match entry.age_ns {
            Some(age) => {
                if age > limit {
                    return Some(true);
                }
            },
            None => {},
        }
        match &entry.metadata {
            None => Some(true),
            Some(metadata) => {
                if metadata.format_version != CACHE_FORMAT_VERSION {
                    return Some(true);
                }
                let same_geometry: bool = metadata.width == window.geometry.width
                    && metadata.height == window.geometry.height;
                Some(!same_geometry)
            },
        }
    }

    /// Whether the thumbnail of a window has to be taken again, where `entries` is what is found
    /// under its keys, in turn.
    pub fn needs_refresh(&self, window: &WindowInfo, entries: &Vec<CacheEntry>) -> (needed: bool)
        ensures
            needed == refresh_needed(entries@, *window, self.refresh_after_seconds),
    {
        let mut i: usize = 0;
        assert(entries@.skip(0) =~= entries@);
        while i < entries.len()
            invariant
                i <= entries@.len(),
                refresh_needed(entries@, *window, self.refresh_after_seconds) == refresh_needed(
                    entries@.skip(i as int),
                    *window,
                    self.refresh_after_seconds,
                ),
            decreases entries@.len() - i,
        {
            assert(entries@.skip(i as int).skip(1) =~= entries@.skip(i + 1));
            match self.cached_entry_needs_refresh(window, &entries[i]) {
                Some(needed) => return needed,
                None => {},
            }
            i += 1;
        }
        true
    }

    /// What is written for the thumbnail of a window, by the process `process`.
    pub fn store(&self, window: &WindowInfo, process: u32) -> (plan: StorePlan)
        ensures
            self.stores(*window, process, plan),
    {
        let key: String = cache_key(self.display.as_str(), window);
        let mut temporary: String = key.clone();
        temporary.append(".");
        text::push_decimal(&mut temporary, process as u128);
        let image_temporary: String = name_with(temporary.as_str(), "tmp");
        let metadata_temporary: String = name_with(temporary.as_str(), "json.tmp");
        StorePlan {
            image_temporary,
            image: name_with(key.as_str(), "png"),
            metadata_temporary,
            metadata_file: name_with(key.as_str(), "json"),
            metadata: ThumbnailMetadata {
                format_version: CACHE_FORMAT_VERSION,
                key,
                display: self.display.clone(),
                window_id: window.id,
                i3_con_id: window.i3_con_id,
                workspace: window.workspace.clone(),
                title: window.name.clone(),
                class: text::copy_option(&window.class),
                width: window.geometry.width,
                height: window.geometry.height,
            },
        }
    }

    /// `plan` is what is written for the thumbnail of a window.
    pub open spec fn stores(self, window: WindowInfo, process: u32, plan: StorePlan) -> bool {
        let key = key_of(self.display@, window.id, window.i3_con_id);
        let temporary = key + "."@ + text::decimal(process as nat);
        &&& plan.image_temporary@ == file_name(temporary, "tmp"@)
        &&& plan.image@ == file_name(key, "png"@)
        &&& plan.metadata_temporary@ == file_name(temporary, "json.tmp"@)
        &&& plan.metadata_file@ == file_name(key, "json"@)
        &&& plan.metadata.format_version == CACHE_FORMAT_VERSION
        &&& plan.metadata.key@ == key
        &&& plan.metadata.display == self.display
        &&& plan.metadata.window_id == window.id
        &&& plan.metadata.i3_con_id == window.i3_con_id
        &&& plan.metadata.workspace == window.workspace
        &&& plan.metadata.title == window.name
        &&& plan.metadata.class == window.class
        &&& plan.metadata.width == window.geometry.width
        &&& plan.metadata.height == window.geometry.height
    }
}

/// A thumbnail that was stored for a window is looked for first under the key it was stored
/// under, and as long as it is young enough it is taken again exactly when the window has another
/// size, whatever else has become of the window, its title or its workspace.
pub proof fn law_stored_thumbnail_is_fresh(
    cache: ThumbnailCache,
    window: WindowInfo,
    process: u32,
    plan: StorePlan,
    now: WindowInfo,
    entry: CacheEntry,
    others: Seq<CacheEntry>,
)
    requires
        cache.stores(window, process, plan),
        now.id == window.id,
        now.i3_con_id == window.i3_con_id,
        entry.present,
        entry.metadata == Some(plan.metadata),
        entry.age_ns is Some ==> entry.age_ns->0 <= cache.refresh_after_seconds * 1_000_000_000,
    ensures
        cache.keys_for(now)[0] == plan.metadata.key@,
        plan.image@ == file_name(cache.keys_for(now)[0], "png"@),
        refresh_needed(seq![entry] + others, now, cache.refresh_after_seconds) == (
        now.geometry.width != window.geometry.width || now.geometry.height
            != window.geometry.height),
{
    assert((seq![entry] + others)[0] == entry);
}

/// A thumbnail that is too old is taken again, whatever its metadata say.
pub proof fn law_old_thumbnail_is_taken_again(
    entry: CacheEntry,
    others: Seq<CacheEntry>,
    window: WindowInfo,
    refresh_after_seconds: u64,
)
    requires
        entry.present,
        entry.age_ns is Some,
        entry.age_ns->0 > refresh_after_seconds * 1_000_000_000,
    ensures
        refresh_needed(seq![entry] + others, window, refresh_after_seconds),
{
    assert((seq![entry] + others)[0] == entry);
}

/// A missing thumbnail is taken.
pub proof fn law_missing_thumbnail_is_taken(
    entries: Seq<CacheEntry>,
    window: WindowInfo,
    refresh_after_seconds: u64,
)
    requires
        forall|i: int| 0 <= i < entries.len() ==> !(#[trigger] entries[i]).present,
    ensures
        refresh_needed(entries, window, refresh_after_seconds),
    decreases entries.len(),
{
    if entries.len() > 0 {
        assert(!entries[0].present);
        assert forall|i: int| 0 <= i < entries.skip(1).len() implies !(
        #[trigger] entries.skip(1)[i]).present by {
            assert(entries.skip(1)[i] == entries[i + 1]);
        }
        law_missing_thumbnail_is_taken(entries.skip(1), window, refresh_after_seconds);
    }
}

proof fn lemma_last_dot(key: Seq<char>, extension: Seq<char>)
    requires
        forall|i: int| 0 <= i < extension.len() ==> #[trigger] extension[i] != '.',
    ensures
        last_dot(key + seq!['.'] + extension) == Some(key.len() as int),
    decreases extension.len(),
{
    let name = key + seq!['.'] + extension;
    if extension.len() == 0 {
        assert(name.last() == '.');
    } else {
        assert(name.last() == extension[extension.len() - 1]);
        let shorter = extension.drop_last();
        assert(name.drop_last() =~= key + seq!['.'] + shorter);
        lemma_last_dot(key, shorter);
    }
}

proof fn lemma_file_name_parts(key: Seq<char>, extension: Seq<char>)
    requires
        key.len() > 0,
        extension.len() > 0,
        forall|i: int| 0 <= i < extension.len() ==> #[trigger] extension[i] != '.',
    ensures
        parts_of(file_name(key, extension)) == (key, Some(extension)),
{
    reveal_strlit(".");
    reveal_strlit("..");
    assert("."@ =~= seq!['.']);
    let name = key + seq!['.'] + extension;
    assert(file_name(key, extension) == name);
    lemma_last_dot(key, extension);
    assert(name.last() == extension[extension.len() - 1]);
    assert(name.last() != '.');
    assert(name != ".."@);
    assert(name.take(key.len() as int) =~= key);
    assert(name.skip(key.len() as int + 1) =~= extension);
}

proof fn lemma_hex_length(number: nat, width: nat)
    ensures
        text::hex(number, width).len() == width,
    decreases width,
{
    if width > 0 {
        lemma_hex_length(number / 16, (width - 1) as nat);
    }
}

/// Pruning keeps both files of every window that is there.
pub proof fn law_pruning_keeps_current_thumbnails(
    cache: ThumbnailCache,
    windows: Seq<WindowInfo>,
    index: int,
)
    requires
        0 <= index < windows.len(),
        forall|key: Seq<char>|
            is_window_key(windows, cache.display@, key) ==> has_key(cache.valid_keys@, key),
    ensures
        ({
            let window = windows[index];
            let key = key_of(cache.display@, window.id, window.i3_con_id);
            &&& !cache.is_stale_name(file_name(key, "png"@))
            &&& !cache.is_stale_name(file_name(key, "json"@))
        }),
{
    let window = windows[index];
    let key = key_of(cache.display@, window.id, window.i3_con_id);
    assert(is_window_key(windows, cache.display@, key));
    lemma_hex_length(
        DefaultHasher::spec_finish(
            hashed(vstd::utf8::encode_utf8(cache.display@), window.id, window.i3_con_id),
        ) as nat,
        16,
    );
    reveal_strlit("png");
    reveal_strlit("json");
    lemma_file_name_parts(key, "png"@);
    lemma_file_name_parts(key, "json"@);
}

/// Pruning touches nothing but images and metadata.
pub proof fn law_pruning_leaves_other_files(cache: ThumbnailCache, name: Seq<char>)
    requires
        parts_of(name).1 != Some("png"@),
        parts_of(name).1 != Some("json"@),
    ensures
        !cache.is_stale_name(name),
{
}

/// A key is the name of both files of a thumbnail, and of no other thumbnail's.
pub proof fn law_files_of_different_keys_differ(first: Seq<char>, second: Seq<char>)
    requires
        first.len() > 0,
        second.len() > 0,
        first != second,
    ensures
        file_name(first, "png"@) != file_name(second, "png"@),
        file_name(first, "json"@) != file_name(second, "json"@),
        file_name(first, "png"@) != file_name(second, "json"@),
{
    reveal_strlit("png");
    reveal_strlit("json");
    lemma_file_name_parts(first, "png"@);
    lemma_file_name_parts(second, "png"@);
    lemma_file_name_parts(first, "json"@);
    lemma_file_name_parts(second, "json"@);
    assert("png"@ != "json"@) by {
        assert("png"@.len() == 3);
        assert("json"@.len() == 4);
    }
}

/// What is hashed tells displays, windows and containers apart, and ends the display with a byte
/// that no text holds.
pub proof fn law_hashed_bytes_tell_windows_apart(
    display: Seq<u8>,
    window: u32,
    con_id: Option<i64>,
    other_display: Seq<u8>,
    other_window: u32,
    other_con_id: Option<i64>,
)
    ensures
        hashed(display, window, con_id)[0] == display,
        hashed(display, window, con_id)[1] == seq![0xffu8],
        hashed(display, window, con_id)[2] == seq![2u8, 0, 0, 0],
        hashed(display, window, con_id) == hashed(other_display, other_window, other_con_id) ==> {
            &&& display == other_display
            &&& window == other_window
            &&& con_id == other_con_id
        },
{
    let a = hashed(display, window, con_id);
    let b = hashed(other_display, other_window, other_con_id);
    reveal_with_fuel(pixels::little_bytes, 9);
    assert(a[2] =~= seq![2u8, 0, 0, 0]);
    if a == b {
        lemma_low_bytes_tell_apart(window as nat, other_window as nat, 4);
        assert(a[0] == b[0] && a[3] == b[3] && a[4] == b[4]);
        if let (Some(first), Some(second)) = (con_id, other_con_id) {
            lemma_low_bytes_tell_apart(unsigned(first), unsigned(second), 8);
            assert(a[5] == b[5]);
        } else if con_id is Some != other_con_id is Some {
            assert(a.len() != b.len());
        }
    }
}

/// `256^count`.
spec fn low_bound(count: nat) -> nat
    decreases count,
{
    if count == 0 {
        1
    } else {
        256 * low_bound((count - 1) as nat)
    }
}

proof fn lemma_low_bytes(first: nat, second: nat, count: nat)
    requires
        first < low_bound(count),
        second < low_bound(count),
        pixels::little_bytes(first, count) == pixels::little_bytes(second, count),
    ensures
        first == second,
    decreases count,
{
    if count > 0 {
        let a = pixels::little_bytes(first, count);
        let b = pixels::little_bytes(second, count);
        let shorter = (count - 1) as nat;
        assert(a[0] == (first % 256) as u8 && b[0] == (second % 256) as u8);
        assert(a.skip(1) =~= pixels::little_bytes(first / 256, shorter));
        assert(b.skip(1) =~= pixels::little_bytes(second / 256, shorter));
        lemma_low_bytes(first / 256, second / 256, shorter);
    }
}

proof fn lemma_low_bytes_tell_apart(first: nat, second: nat, count: nat)
    requires
        count == 4 ==> first <= u32::MAX && second <= u32::MAX,
        count == 8 ==> first <= u64::MAX && second <= u64::MAX,
        count == 4 || count == 8,
    ensures
        pixels::little_bytes(first, count) == pixels::little_bytes(second, count) ==> first
            == second,
{
    reveal_with_fuel(low_bound, 9);
    if pixels::little_bytes(first, count) == pixels::little_bytes(second, count) {
        lemma_low_bytes(first, second, count);
    }
}

/// A key is sixteen digits: those of the hash of these bytes.
pub proof fn law_keys_are_sixteen_digits(display: Seq<char>, window: u32, con_id: Option<i64>)
    ensures
        key_of(display, window, con_id).len() == 16,
        key_of(display, window, con_id) == text::hex(
            DefaultHasher::spec_finish(
                hashed(vstd::utf8::encode_utf8(display), window, con_id),
            ) as nat,
            16,
        ),
{
    lemma_hex_length(
        DefaultHasher::spec_finish(
            hashed(vstd::utf8::encode_utf8(display), window, con_id),
        ) as nat,
        16,
    );
}

/// Letters and digits of ASCII, the hyphen, the underscore and the dot stay as they are, and
/// everything else becomes an underscore.
pub proof fn law_other_characters_become_underscores(value: Seq<char>, i: int)
    requires
        0 <= i < value.len(),
    ensures
        ({
            let ch = value[i];
            let kept = 'a' <= ch <= 'z' || 'A' <= ch <= 'Z' || '0' <= ch <= '9' || ch == '-' || ch
                == '_' || ch == '.';
            sanitized(value)[i] == if kept {
                ch
            } else {
                '_'
            }
        }),
{
}

/// The extension of a file is what follows the last dot of its name; a name without a dot, or
/// with none but at its start, has no extension.
pub proof fn law_extension_follows_the_last_dot(stem: Seq<char>, extension: Seq<char>)
    requires
        forall|i: int| 0 <= i < extension.len() ==> #[trigger] extension[i] != '.',
    ensures
        parts_of(extension) == (extension, None::<Seq<char>>),
        parts_of(seq!['.'] + extension) == (seq!['.'] + extension, None::<Seq<char>>),
        stem.len() > 0 && extension.len() > 0 ==> parts_of(stem + seq!['.'] + extension) == (
            stem,
            Some(extension),
        ),
{
    let none = Seq::<char>::empty();
    lemma_no_dot(extension);
    lemma_last_dot(none, extension);
    assert(none + seq!['.'] + extension =~= seq!['.'] + extension);
    if stem.len() > 0 && extension.len() > 0 {
        lemma_file_name_parts(stem, extension);
        reveal_strlit(".");
        assert("."@ =~= seq!['.']);
    }
}

proof fn lemma_no_dot(name: Seq<char>)
    requires
        forall|i: int| 0 <= i < name.len() ==> #[trigger] name[i] != '.',
    ensures
        last_dot(name) is None,
    decreases name.len(),
{
    if name.len() > 0 {
        assert(name[name.len() - 1] != '.');
        lemma_no_dot(name.drop_last());
    }
}

/// Both files of a key are removed where the key is not kept, and none of them where it is.
pub proof fn law_files_go_with_their_key(cache: ThumbnailCache, key: Seq<char>)
    requires
        key.len() > 0,
    ensures
        cache.is_stale_name(key + ".png"@) <==> !has_key(cache.valid_keys@, key),
        cache.is_stale_name(key + ".json"@) <==> !has_key(cache.valid_keys@, key),
        file_name(key, "png"@) == key + ".png"@,
        file_name(key, "json"@) == key + ".json"@,
{
    reveal_strlit("png");
    reveal_strlit("json");
    reveal_strlit(".");
    reveal_strlit(".png");
    reveal_strlit(".json");
    assert(file_name(key, "png"@) =~= key + ".png"@);
    assert(file_name(key, "json"@) =~= key + ".json"@);
    lemma_file_name_parts(key, "png"@);
    lemma_file_name_parts(key, "json"@);
}

/// Each file is looked at for itself: what is removed of several is what is removed of the first
/// ones and then what is removed of the others.
pub proof fn law_files_are_removed_one_by_one(
    cache: ThumbnailCache,
    before: Seq<Seq<char>>,
    after: Seq<Seq<char>>,
    name: Seq<char>,
)
    ensures
        cache.stale_names(before + after) == cache.stale_names(before) + cache.stale_names(after),
        cache.stale_names(seq![name]) == if cache.is_stale_name(name) {
            seq![name]
        } else {
            seq![]
        },
    decreases after.len(),
{
    let none: Seq<Seq<char>> = seq![];
    assert(seq![name].drop_last() =~= none);
    assert(cache.stale_names(none) =~= none);
    if after.len() == 0 {
        assert(before + after =~= before);
        assert(cache.stale_names(before) + cache.stale_names(after) =~= cache.stale_names(before));
    } else {
        law_files_are_removed_one_by_one(cache, before, after.drop_last(), name);
        assert((before + after).drop_last() =~= before + after.drop_last());
        assert((before + after).last() == after.last());
        assert(cache.stale_names(before + after) =~= cache.stale_names(before)
            + cache.stale_names(after));
    }
}

/// Metadata keep their key where a window of the same number and container is there, and only
/// there.
pub proof fn law_metadata_of_current_windows_keep_their_key(
    windows: Seq<WindowInfo>,
    stored: Seq<ThumbnailMetadata>,
    j: int,
)
    requires
        0 <= j < stored.len(),
    ensures
        (exists|i: int|
            0 <= i < windows.len() && (#[trigger] windows[i]).id == stored[j].window_id
                && windows[i].i3_con_id == stored[j].i3_con_id) ==> is_stored_key(
            windows,
            stored,
            stored[j].key@,
        ),
        known_keys(windows, seq![stored[j]]).len() == 1 <==> (exists|i: int|
            0 <= i < windows.len() && (#[trigger] windows[i]).id == stored[j].window_id
                && windows[i].i3_con_id == stored[j].i3_con_id),
        known_keys(windows, seq![stored[j]]).len() == 1 ==> {
            let known = known_keys(windows, seq![stored[j]])[0];
            &&& known.window_id == stored[j].window_id
            &&& known.i3_con_id == stored[j].i3_con_id
            &&& known.key@ == stored[j].key@
        },
{
    let none: Seq<ThumbnailMetadata> = seq![];
    assert(seq![stored[j]].drop_last() =~= none);
    assert(known_keys(windows, none) =~= seq![]);
    assert(seq![stored[j]].last() == stored[j]);
}

/// What metadata say is taken in their order, and so are the keys of a window: those of all that
/// say of its number and container.
pub proof fn law_earlier_keys_come_in_order(
    windows: Seq<WindowInfo>,
    before: Seq<ThumbnailMetadata>,
    after: Seq<ThumbnailMetadata>,
    known: Seq<KnownKey>,
    last: KnownKey,
    window: WindowInfo,
)
    ensures
        known_keys(windows, before + after) == known_keys(windows, before) + known_keys(
            windows,
            after,
        ),
        keys_known(known.push(last), window.id, window.i3_con_id) == if last.window_id
            == window.id && last.i3_con_id == window.i3_con_id {
            keys_known(known, window.id, window.i3_con_id).push(last.key@)
        } else {
            keys_known(known, window.id, window.i3_con_id)
        },
        keys_known(seq![], window.id, window.i3_con_id).len() == 0,
    decreases after.len(),
{
    assert(known.push(last).drop_last() =~= known);
    if after.len() == 0 {
        assert(before + after =~= before);
        assert(known_keys(windows, before) + known_keys(windows, after) =~= known_keys(
            windows,
            before,
        ));
    } else {
        law_earlier_keys_come_in_order(windows, before, after.drop_last(), known, last, window);
        assert((before + after).drop_last() =~= before + after.drop_last());
        assert((before + after).last() == after.last());
        assert(known_keys(windows, before + after) =~= known_keys(windows, before) + known_keys(
            windows,
            after,
        ));
    }
}

/// The first thumbnail that is there decides, whatever would be found after it: it is taken again
/// where it is older than the limit, where its metadata cannot be read or are of another version,
/// and where the window has another width or height now.
pub proof fn law_first_thumbnail_decides(
    absent: Seq<CacheEntry>,
    entry: CacheEntry,
    others: Seq<CacheEntry>,
    window: WindowInfo,
    refresh_after_seconds: u64,
)
    requires
        forall|i: int| 0 <= i < absent.len() ==> !(#[trigger] absent[i]).present,
        entry.present,
    ensures
        refresh_needed(absent + seq![entry] + others, window, refresh_after_seconds) <==> {
            ||| entry.age_ns matches Some(age) && age > refresh_after_seconds * 1_000_000_000
            ||| entry.metadata is None
            ||| entry.metadata->0.format_version != 2
            ||| entry.metadata->0.width != window.geometry.width
            ||| entry.metadata->0.height != window.geometry.height
        },
    decreases absent.len(),
{
    let all = absent + seq![entry] + others;
    if absent.len() == 0 {
        assert(all[0] == entry);
    } else {
        let rest = absent.skip(1);
        assert forall|i: int| 0 <= i < rest.len() implies !(#[trigger] rest[i]).present by {
            assert(rest[i] == absent[i + 1]);
        }
        law_first_thumbnail_decides(rest, entry, others, window, refresh_after_seconds);
        assert(!absent[0].present);
        assert(all[0] == absent[0]);
        assert(all.skip(1) =~= rest + seq![entry] + others);
    }
}

/// A thumbnail is written under names that carry the key and the process, and the metadata say
/// what it shows.
pub proof fn law_stored_files_carry_the_key(
    cache: ThumbnailCache,
    window: WindowInfo,
    process: u32,
    plan: StorePlan,
)
    requires
        cache.stores(window, process, plan),
    ensures
        ({
            let key = key_of(cache.display@, window.id, window.i3_con_id);
            let number = text::decimal(process as nat);
            &&& plan.image@ == key + ".png"@
            &&& plan.metadata_file@ == key + ".json"@
            &&& plan.image_temporary@ == key + "."@ + number + ".tmp"@
            &&& plan.metadata_temporary@ == key + "."@ + number + ".json.tmp"@
            &&& plan.metadata.format_version == 2
            &&& plan.metadata.key@ == key
            &&& plan.metadata.display@ == cache.display@
            &&& plan.metadata.window_id == window.id
            &&& plan.metadata.i3_con_id == window.i3_con_id
            &&& plan.metadata.workspace@ == window.workspace@
            &&& plan.metadata.title@ == window.name@
            &&& text::option_view(plan.metadata.class) == text::option_view(window.class)
            &&& plan.metadata.width == window.geometry.width
            &&& plan.metadata.height == window.geometry.height
        }),
{
    let key = key_of(cache.display@, window.id, window.i3_con_id);
    let number = text::decimal(process as nat);
    reveal_strlit("png");
    reveal_strlit("json");
    reveal_strlit("tmp");
    reveal_strlit("json.tmp");
    reveal_strlit(".");
    reveal_strlit(".png");
    reveal_strlit(".json");
    reveal_strlit(".tmp");
    reveal_strlit(".json.tmp");
    assert(plan.image@ =~= key + ".png"@);
    assert(plan.metadata_file@ =~= key + ".json"@);
    assert(plan.image_temporary@ =~= key + "."@ + number + ".tmp"@);
    assert(plan.metadata_temporary@ =~= key + "."@ + number + ".json.tmp"@);
}

/// Displays that have names have caches of their own, under other bytes for the keys; without a
/// name the cache is that of an unknown display.
pub proof fn law_displays_have_their_own_keys(
    first: String,
    second: String,
    window: u32,
    con_id: Option<i64>,
)
    ensures
        display_of(None) == "unknown-display"@,
        display_of(Some(first)) == first@,
        first@ != second@ ==> hashed(
            vstd::utf8::encode_utf8(display_of(Some(first))),
            window,
            con_id,
        ) != hashed(vstd::utf8::encode_utf8(display_of(Some(second))), window, con_id),
{
    if first@ != second@ {
        text::law_encoded_text_reads_back(first@);
        text::law_encoded_text_reads_back(second@);
        law_hashed_bytes_tell_windows_apart(
            vstd::utf8::encode_utf8(first@),
            window,
            con_id,
            vstd::utf8::encode_utf8(second@),
            window,
            con_id,
        );
    }
}

}
