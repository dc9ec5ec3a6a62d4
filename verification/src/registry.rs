//! Optional firmware registry: maps the sha256 of a received SB2.1 image to a
//! firmware version, using the host project's `firmware-registry.json` schema.
//!
//! Caveat: the vendor app zeroes a 2-byte marker at `size - 4` before putting
//! the image on the wire, so the sha256 of what the virtual bootloader
//! receives usually does NOT match the registry's embedded-image hashes. The
//! lookup is still useful for images extracted straight from a capture (wire
//! images) or user-maintained maps; otherwise the post-flash version applies.

use crate::text::{chars_of, hex_of, hex_string, lower, parse_unsigned, texts, unsigned};
use sha2::{Digest, Sha256};
use vstd::prelude::*;
use vstd::utf8::is_ascii_chars;

verus! {

/// One release of the registry file.
#[derive(Debug)]
pub struct Release {
    pub firmware_version: Option<String>,
    /// The sha256 texts of the release's images.
    pub images: Vec<String>,
}

/// The SHA-256 digest of `data`, as `sha2` computes it.
pub uninterp spec fn sha256_of(data: Seq<u8>) -> Seq<u8>;

/// `sha2::Sha256::digest`: the 32-byte digest, a function of the data alone.
/// The hasher counts bits in 64 bits, so the data stays below 2^61 bytes.
#[verifier::external_body]
fn sha256(data: &[u8]) -> (d: Vec<u8>)
    requires
        data@.len() < 0x2000_0000_0000_0000,
    ensures
        d@ == sha256_of(data@),
        d@.len() == 32,
{
    Sha256::digest(data).to_vec()
}

/// The Unicode lower-case form of `s`, as `str::to_lowercase` maps it.
pub uninterp spec fn unicode_lower(s: Seq<char>) -> Seq<char>;

/// The lower-case form of `s`: letter by letter in ASCII text.
pub open spec fn lower_text(s: Seq<char>) -> Seq<char> {
    if is_ascii_chars(s) {
        lower(s)
    } else {
        unicode_lower(s)
    }
}

/// `str::to_lowercase`: the lower-case form, a function of the text alone. In
/// ASCII text only the letters A to Z change.
#[verifier::external_body]
fn to_lowercase(s: &str) -> (l: String)
    ensures
        l@ == (if is_ascii_chars(s@) {
            lower(s@)
        } else {
            unicode_lower(s@)
        }),
{
    s.to_lowercase()
}

/// The lower-case hex digest of `bytes`.
pub fn sha256_hex(bytes: &[u8]) -> (hex: String)
    requires
        bytes@.len() < 0x2000_0000_0000_0000,
    ensures
        hex@ == hex_of(sha256_of(bytes@)),
        hex@.len() == 64,
{
    let d = sha256(bytes);
    hex_string(&d)
}

/// The version a release announces, if its text is a decimal `u32`.
pub open spec fn release_version(version: Option<Seq<char>>) -> Option<u32> {
    match version {
        Some(v) => match unsigned(v, 10, u32::MAX as int) {
            Ok(n) => Some(n as u32),
            Err(_) => None,
        },
        None => None,
    }
}

/// The version text of a release.
pub open spec fn version_text(r: Release) -> Option<Seq<char>> {
    match r.firmware_version {
        Some(s) => Some(s@),
        None => None,
    }
}

/// `m` with every image mapped to `version`, the later ones last.
pub open spec fn with_images(m: Map<Seq<char>, u32>, images: Seq<Seq<char>>, version: u32) -> Map<
    Seq<char>,
    u32,
>
    decreases images.len(),
{
    if images.len() == 0 {
        m
    } else {
        with_images(m, images.drop_last(), version).insert(lower_text(images.last()), version)
    }
}

/// `m` with one release added; one without a usable version adds nothing.
pub open spec fn with_release(m: Map<Seq<char>, u32>, r: Release) -> Map<Seq<char>, u32> {
    match release_version(version_text(r)) {
        Some(v) => with_images(m, texts(r.images@), v),
        None => m,
    }
}

/// The map of a list of releases, the later ones last.
pub open spec fn registry_of(releases: Seq<Release>) -> Map<Seq<char>, u32>
    decreases releases.len(),
{
    if releases.len() == 0 {
        Map::empty()
    } else {
        with_release(registry_of(releases.drop_last()), releases.last())
    }
}

/// Whether all keys differ.
spec fn distinct(entries: Seq<(String, u32)>) -> bool {
    forall|i: int, j: int|
        #![trigger entries[i], entries[j]]
        0 <= i < j < entries.len() ==> entries[i].0@ != entries[j].0@
}

/// The map of a list of entries.
spec fn entries_map(entries: Seq<(String, u32)>) -> Map<Seq<char>, u32>
    decreases entries.len(),
{
    if entries.len() == 0 {
        Map::empty()
    } else {
        entries_map(entries.drop_last()).insert(entries.last().0@, entries.last().1)
    }
}

/// The map holds exactly the entries.
proof fn lemma_entries_map(entries: Seq<(String, u32)>)
    requires
        distinct(entries),
    ensures
        entries_map(entries).dom().finite(),
        entries_map(entries).len() == entries.len(),
        forall|i: int|
            #![trigger entries[i]]
            0 <= i < entries.len() ==> entries_map(entries).contains_key(entries[i].0@)
                && entries_map(entries)[entries[i].0@] == entries[i].1,
        forall|k: Seq<char>|
            #![trigger entries_map(entries).contains_key(k)]
            entries_map(entries).contains_key(k) ==> exists|i: int|
                #![trigger entries[i]]
                0 <= i < entries.len() && entries[i].0@ == k,
    decreases entries.len(),
{
    if entries.len() > 0 {
        let rest = entries.drop_last();
        assert(distinct(rest)) by {
            assert forall|i: int, j: int|
                #![trigger rest[i], rest[j]]
                0 <= i < j < rest.len() implies rest[i].0@ != rest[j].0@ by {
                assert(entries[i].0@ != entries[j].0@);
            }
        }
        lemma_entries_map(rest);
        let last = entries.last();
        let m = entries_map(rest);
        assert(!m.contains_key(last.0@)) by {
            if m.contains_key(last.0@) {
                let i = choose|i: int|
                    #![trigger rest[i]]
                    0 <= i < rest.len() && rest[i].0@ == last.0@;
                assert(entries[i].0@ != entries[entries.len() - 1].0@);
            }
        }
        assert forall|i: int|
            #![trigger entries[i]]
            0 <= i < entries.len() implies entries_map(entries).contains_key(entries[i].0@)
            && entries_map(entries)[entries[i].0@] == entries[i].1 by {
            if i < rest.len() {
                assert(rest[i] == entries[i]);
                assert(entries[i].0@ != entries[entries.len() - 1].0@);
            }
        }
        assert forall|k: Seq<char>|
            #![trigger entries_map(entries).contains_key(k)]
            entries_map(entries).contains_key(k) implies exists|i: int|
            #![trigger entries[i]]
            0 <= i < entries.len() && entries[i].0@ == k by {
            if k == last.0@ {
                assert(entries[entries.len() - 1].0@ == k);
            } else {
                assert(m.contains_key(k));
                let i = choose|i: int|
                    #![trigger rest[i]]
                    0 <= i < rest.len() && rest[i].0@ == k;
                assert(entries[i].0@ == k);
            }
        }
    }
}

/// sha256 (lowercase hex) to firmware version.
#[derive(Debug)]
pub struct FirmwareRegistry {
    by_sha: Vec<(String, u32)>,
}

impl View for FirmwareRegistry {
    type V = Map<Seq<char>, u32>;

    closed spec fn view(&self) -> Map<Seq<char>, u32> {
        entries_map(self.by_sha@)
    }
}

/// Finds the entry of `key`.
fn find(entries: &Vec<(String, u32)>, key: &String) -> (r: Option<usize>)
    requires
        distinct(entries@),
    ensures
        match r {
            Some(i) => {
                &&& i < entries@.len()
                &&& entries@[i as int].0@ == key@
                &&& entries_map(entries@).contains_key(key@)
                &&& entries_map(entries@)[key@] == entries@[i as int].1
            },
            None => !entries_map(entries@).contains_key(key@),
        },
{
    proof {
        lemma_entries_map(entries@);
    }
    let mut i: usize = 0;
    while i < entries.len() && entries[i].0 != *key
        invariant
            i <= entries@.len(),
            forall|j: int| #![trigger entries@[j]] 0 <= j < i ==> entries@[j].0@ != key@,
        decreases entries@.len() - i,
    {
        i += 1;
    }
    if i < entries.len() {
        assert(entries@[i as int].0@ == key@);
        Some(i)
    } else {
        None
    }
}

/// Replacing the value of entry `i` replaces the value of its key.
proof fn lemma_entries_update(entries: Seq<(String, u32)>, i: int, key: String, version: u32)
    requires
        distinct(entries),
        0 <= i < entries.len(),
        entries[i].0@ == key@,
    ensures
        distinct(entries.update(i, (key, version))),
        entries_map(entries.update(i, (key, version))) == entries_map(entries).insert(key@, version),
{
    let after = entries.update(i, (key, version));
    assert forall|a: int, b: int| #![trigger after[a], after[b]] 0 <= a < b < after.len() implies
        after[a].0@ != after[b].0@ by {
        assert(entries[a].0@ != entries[b].0@);
    }
    lemma_entries_map(entries);
    lemma_entries_map(after);
    let (m, n) = (entries_map(entries).insert(key@, version), entries_map(after));
    assert forall|k: Seq<char>| n.contains_key(k) implies m.contains_key(k) && m[k] == n[k] by {
        let j = choose|j: int| #![trigger after[j]] 0 <= j < after.len() && after[j].0@ == k;
        if j != i {
            assert(entries[j] == after[j]);
            assert(entries[if j < i { j } else { i }].0@ != entries[if j < i { i } else { j }].0@);
        }
    }
    assert forall|k: Seq<char>| m.contains_key(k) implies n.contains_key(k) by {
        if k == key@ {
            assert(after[i].0@ == k);
        } else {
            assert(entries_map(entries).contains_key(k));
            let j = choose|j: int| #![trigger entries[j]] 0 <= j < entries.len() && entries[j].0@
                == k;
            assert(after[j] == entries[j]);
        }
    }
    assert(n =~= m);
}

/// Maps `key` to `version`, replacing what was there.
fn insert(entries: &mut Vec<(String, u32)>, key: String, version: u32)
    requires
        distinct(old(entries)@),
    ensures
        distinct(final(entries)@),
        entries_map(final(entries)@) == entries_map(old(entries)@).insert(key@, version),
{
    let ghost before = entries@;
    proof {
        lemma_entries_map(before);
    }
    match find(entries, &key) {
        Some(i) => {
            proof {
                lemma_entries_update(before, i as int, key, version);
            }
            entries[i] = (key, version);
        },
        None => {
            entries.push((key, version));
            assert(entries@.drop_last() =~= before);
        },
    }
}

impl FirmwareRegistry {
    /// Keys differ from each other.
    #[verifier::type_invariant]
    spec fn wf(self) -> bool {
        distinct(self.by_sha@)
    }

    /// Builds the map from the releases of a registry file. A release whose
    /// version is absent or not a number is skipped.
    pub fn load(releases: &[Release]) -> (r: Self)
        ensures
            r@ == registry_of(releases@),
    {
        let mut by_sha: Vec<(String, u32)> = Vec::new();
        let mut i: usize = 0;
        assert(entries_map(by_sha@) =~= registry_of(releases@.take(0)));
        while i < releases.len()
            invariant
                i <= releases@.len(),
                distinct(by_sha@),
                entries_map(by_sha@) == registry_of(releases@.take(i as int)),
            decreases releases@.len() - i,
        {
            assert(releases@.take(i + 1).drop_last() =~= releases@.take(i as int));
            let r = &releases[i];
            let ghost m = entries_map(by_sha@);
            if let Some(text) = &r.firmware_version {
                let chars = chars_of(text.as_str());
                if let Ok(version) = parse_unsigned(&chars, 10, u32::MAX) {
                    let mut j: usize = 0;
                    let ghost names = texts(r.images@);
                    assert(names.take(0) =~= Seq::<Seq<char>>::empty());
                    while j < r.images.len()
                        invariant
                            j <= r.images@.len(),
                            names == texts(r.images@),
                            distinct(by_sha@),
                            entries_map(by_sha@) == with_images(m, names.take(j as int), version),
                        decreases r.images@.len() - j,
                    {
                        assert(names.take(j + 1).drop_last() =~= names.take(j as int));
                        let key = to_lowercase(r.images[j].as_str());
                        insert(&mut by_sha, key, version);
                        j += 1;
                    }
                    assert(names.take(names.len() as int) =~= names);
                }
            }
            i += 1;
        }
        assert(releases@.take(releases@.len() as int) =~= releases@);
        FirmwareRegistry { by_sha }
    }

    /// The number of images known.
    pub fn len(&self) -> (n: usize)
        ensures
            self@.dom().finite(),
            n == self@.len(),
    {
        proof {
            use_type_invariant(self);
            lemma_entries_map(self.by_sha@);
        }
        self.by_sha.len()
    }

    /// Whether no image is known.
    pub fn is_empty(&self) -> (b: bool)
        ensures
            b == (self@ == Map::<Seq<char>, u32>::empty()),
    {
        proof {
            use_type_invariant(self);
            lemma_entries_map(self.by_sha@);
            if self.by_sha@.len() > 0 {
                assert(self@.contains_key(self.by_sha@[0].0@));
            }
        }
        self.by_sha.len() == 0
    }

    /// Looks up an image by its lower-case hex digest.
    pub fn version_of_sha(&self, sha: &String) -> (v: Option<u32>)
        ensures
            v == (if self@.contains_key(sha@) {
                Some(self@[sha@])
            } else {
                None
            }),
    {
        proof {
            use_type_invariant(self);
        }
        match find(&self.by_sha, sha) {
            Some(i) => Some(self.by_sha[i].1),
            None => None,
        }
    }

    /// Looks up an image by content.
    pub fn version_of(&self, image: &[u8]) -> (v: Option<u32>)
        requires
            image@.len() < 0x2000_0000_0000_0000,
        ensures
            v == (if self@.contains_key(hex_of(sha256_of(image@))) {
                Some(self@[hex_of(sha256_of(image@))])
            } else {
                None
            }),
    {
        let hex = sha256_hex(image);
        self.version_of_sha(&hex)
    }
}

impl Clone for FirmwareRegistry {
    fn clone(&self) -> (copy: Self)
        ensures
            copy@ == self@,
    {
        proof {
            use_type_invariant(self);
        }
        let mut by_sha: Vec<(String, u32)> = Vec::new();
        let mut i: usize = 0;
        while i < self.by_sha.len()
            invariant
                i <= self.by_sha@.len(),
                distinct(self.by_sha@),
                distinct(by_sha@),
                entries_map(by_sha@) == entries_map(self.by_sha@.take(i as int)),
            decreases self.by_sha@.len() - i,
        {
            assert(self.by_sha@.take(i + 1).drop_last() =~= self.by_sha@.take(i as int));
            insert(&mut by_sha, self.by_sha[i].0.clone(), self.by_sha[i].1);
            i += 1;
        }
        assert(self.by_sha@.take(i as int) =~= self.by_sha@);
        FirmwareRegistry { by_sha }
    }
}

impl Default for FirmwareRegistry {
    fn default() -> (r: Self)
        ensures
            r@ == Map::<Seq<char>, u32>::empty(),
    {
        FirmwareRegistry { by_sha: Vec::new() }
    }
}

/// Whether `key` is the lower-case form of one of the images.
pub open spec fn names_image(images: Seq<Seq<char>>, key: Seq<char>) -> bool {
    exists|i: int| 0 <= i < images.len() && key == lower_text(#[trigger] images[i])
}

/// Adding images maps exactly their lower-case texts to the version.
proof fn lemma_with_images(
    m: Map<Seq<char>, u32>,
    images: Seq<Seq<char>>,
    version: u32,
    key: Seq<char>,
)
    ensures
        ({
            let after = with_images(m, images, version);
            if names_image(images, key) {
                after.contains_key(key) && after[key] == version
            } else {
                after.contains_key(key) == m.contains_key(key) && (m.contains_key(key) ==> after[key]
                    == m[key])
            }
        }),
    decreases images.len(),
{
    if images.len() > 0 {
        let rest = images.drop_last();
        lemma_with_images(m, rest, version, key);
        if names_image(rest, key) {
            let i = choose|i: int| 0 <= i < rest.len() && key == lower_text(#[trigger] rest[i]);
            assert(images[i] == rest[i]);
        }
        if key == lower_text(images.last()) {
            assert(images[images.len() - 1] == images.last());
        } else if names_image(images, key) {
            let i = choose|i: int| 0 <= i < images.len() && key == lower_text(
                #[trigger] images[i],
            );
            assert(rest[i] == images[i]);
        }
    }
}

/// What a registry answers after one more release: the release's version for
/// its own images, in whatever case they are written, and the former answer
/// for every other image, or for all when the release has no usable version.
pub proof fn lemma_registry_lookup(releases: Seq<Release>, r: Release, key: Seq<char>)
    ensures
        ({
            let (before, after) = (registry_of(releases), registry_of(releases.push(r)));
            match release_version(version_text(r)) {
                Some(v) if names_image(texts(r.images@), key) => {
                    after.contains_key(key) && after[key] == v
                },
                _ => {
                    after.contains_key(key) == before.contains_key(key) && (before.contains_key(key)
                        ==> after[key] == before[key])
                },
            }
        }),
{
    assert(releases.push(r).drop_last() =~= releases);
    match release_version(version_text(r)) {
        Some(v) => {
            lemma_with_images(registry_of(releases), texts(r.images@), v, key);
        },
        None => {},
    }
}

} // verus!
