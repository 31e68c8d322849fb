//! One tracked photo or video file: its path, capture timestamp, keep
//! flag, orientation, perceptual hash and the indices of similar items in
//! the owning list.

use vstd::prelude::*;

use crate::file_types::{spec_is_any, spec_is_heif_image, spec_is_image, spec_is_raw_image,
    spec_is_video};
use crate::item_traits::{Orientation, PropertyResolver};

verus! {

/// The kind of file an item tracks.
#[derive(Debug, PartialEq, Eq, Structural, Clone, Copy)]
pub enum ItemType {
    Image,
    Video,
    RawImage,
    HeifImage,
}

/// The kind a path is classified as, by its extension.
pub open spec fn spec_item_type(path: Seq<char>) -> Option<ItemType> {
    if spec_is_image(path) {
        Some(ItemType::Image)
    } else if spec_is_video(path) {
        Some(ItemType::Video)
    } else if spec_is_raw_image(path) {
        Some(ItemType::RawImage)
    } else if spec_is_heif_image(path) {
        Some(ItemType::HeifImage)
    } else {
        None
    }
}

/// Classify a path by its extension.
pub fn get_item_type(path: &str) -> (r: Option<ItemType>)
    ensures
        r == spec_item_type(path@),
{
    if crate::file_types::is_image(path) {
        Some(ItemType::Image)
    } else if crate::file_types::is_video(path) {
        Some(ItemType::Video)
    } else if crate::file_types::is_raw_image(path) {
        Some(ItemType::RawImage)
    } else if crate::file_types::is_heif_image(path) {
        Some(ItemType::HeifImage)
    } else {
        None
    }
}

/// The number of one bits in a non-negative value.
pub open spec fn ones(n: int) -> int
    decreases n,
{
    if n <= 0 {
        0
    } else {
        n % 2 + ones(n / 2)
    }
}

proof fn lemma_ones_le(n: int)
    requires
        n >= 0,
    ensures
        0 <= ones(n) <= n,
    decreases n,
{
    if n > 0 {
        lemma_ones_le(n / 2);
    }
}

/// The Hamming distance of two byte strings, over their common length:
/// the number of bit positions, from byte `k` on, where they differ.
pub open spec fn hamming_from(a: Seq<u8>, b: Seq<u8>, k: int) -> int
    decreases a.len() + b.len() - k,
{
    if k < 0 || k >= a.len() || k >= b.len() {
        0
    } else {
        ones((a[k] ^ b[k]) as int) + hamming_from(a, b, k + 1)
    }
}

/// The Hamming distance of two byte strings over their common length.
pub open spec fn hamming(a: Seq<u8>, b: Seq<u8>) -> int {
    hamming_from(a, b, 0)
}

/// The Hamming distance is symmetric.
pub proof fn lemma_hamming_symmetric(a: Seq<u8>, b: Seq<u8>)
    ensures
        hamming(a, b) == hamming(b, a),
{
    lemma_hamming_from_symmetric(a, b, 0);
}

proof fn lemma_hamming_from_symmetric(a: Seq<u8>, b: Seq<u8>, k: int)
    ensures
        hamming_from(a, b, k) == hamming_from(b, a, k),
    decreases a.len() + b.len() - k,
{
    if !(k < 0 || k >= a.len() || k >= b.len()) {
        lemma_hamming_from_symmetric(a, b, k + 1);
        let x: u8 = a[k];
        let y: u8 = b[k];
        assert((x ^ y) == (y ^ x)) by (bit_vector);
    }
}

fn byte_ones(x: u8) -> (c: u32)
    ensures
        c as int == ones(x as int),
{
    let mut b: u8 = x;
    let mut c: u32 = 0;
    proof {
        lemma_ones_le(x as int);
    }
    while b > 0
        invariant
            c + ones(b as int) == ones(x as int),
            c <= 255,
            ones(b as int) >= 0,
            ones(x as int) <= 255,
        decreases b,
    {
        proof {
            lemma_ones_le(b as int / 2);
        }
        c = c + (b % 2) as u32;
        b = b / 2;
    }
    c
}

/// The Hamming distance of two byte vectors, saturated at `u32::MAX`.
pub fn hamming_distance(a: &Vec<u8>, b: &Vec<u8>) -> (r: u32)
    ensures
        hamming(a@, b@) <= u32::MAX ==> r as int == hamming(a@, b@),
        hamming(a@, b@) > u32::MAX ==> r == u32::MAX,
{
    let n: usize = if a.len() < b.len() {
        a.len()
    } else {
        b.len()
    };
    let mut acc: u32 = 0;
    let ghost mut exact: int = 0int;
    let mut i: usize = 0;
    while i < n
        invariant
            0 <= i <= n,
            n <= a@.len() && n <= b@.len(),
            n == a@.len() || n == b@.len(),
            hamming(a@, b@) == exact + hamming_from(a@, b@, i as int),
            exact <= u32::MAX ==> acc as int == exact,
            exact > u32::MAX ==> acc == u32::MAX,
            exact >= 0,
        decreases n - i,
    {
        let d: u32 = byte_ones(a[i] ^ b[i]);
        proof {
            lemma_ones_le((a@[i as int] ^ b@[i as int]) as int);
            exact = exact + d as int;
        }
        if acc > u32::MAX - d {
            acc = u32::MAX;
        } else {
            acc = acc + d;
        }
        i = i + 1;
    }
    proof {
        assert(hamming_from(a@, b@, n as int) == 0);
    }
    acc
}

/// What the perceptual-hash bytes encode to; standard base64.
pub uninterp spec fn hash_base64_chars(bytes: Seq<u8>) -> Seq<char>;

/// What a string decodes to as perceptual-hash bytes, when it is valid
/// standard base64.
pub uninterp spec fn hash_base64_bytes(s: Seq<char>) -> Option<Seq<u8>>;

/// Relies on img_hash::ImageHash::from_base64: it decodes the string as
/// standard base64 into the hash bytes, and fails exactly on strings that
/// are not valid base64; the outcome depends on the string alone.  The
/// decoded bytes are shorter than the encoded string.
#[verifier::external_body]
fn decode_hash(encoded: &str) -> (r: Option<Vec<u8>>)
    ensures
        r matches Some(b) ==> hash_base64_bytes(encoded@) == Some(b@) && b@.len()
            <= encoded@.len(),
        r is None ==> hash_base64_bytes(encoded@) is None,
{
    match img_hash::ImageHash::<Vec<u8>>::from_base64(encoded) {
        Ok(h) => Some(h.as_bytes().to_vec()),
        Err(_) => None,
    }
}

/// Relies on img_hash::ImageHash::to_base64 and from_base64: encoding the
/// hash bytes as standard base64 gives a string that decodes back to the
/// same bytes.  Under the length bound, from_bytes cannot fail for byte
/// vectors, so the error arm below is unreachable; were it reached, the
/// round-trip clause would not hold of an empty string.
#[verifier::external_body]
fn encode_hash(bytes: &Vec<u8>) -> (r: String)
    requires
        8 * bytes@.len() <= usize::MAX,
    ensures
        r@ == hash_base64_chars(bytes@),
        hash_base64_bytes(r@) == Some(bytes@),
{
    match img_hash::ImageHash::<Vec<u8>>::from_bytes(bytes) {
        Ok(h) => h.to_base64(),
        Err(_) => String::new(),
    }
}

/// The hash an encoded-hash string yields: none for the empty string, for
/// one that does not decode, and for decoded bytes too long to re-encode
/// on this machine.
pub open spec fn spec_stored_hash(s: Seq<char>) -> Option<Seq<u8>> {
    if s.len() == 0 {
        None
    } else {
        match hash_base64_bytes(s) {
            Some(h) => if 8 * h.len() <= usize::MAX {
                Some(h)
            } else {
                None
            },
            None => None,
        }
    }
}

/// Strictly increasing: sorted with no duplicates.
pub open spec fn sorted_unique(s: Seq<usize>) -> bool {
    forall|i: int, j: int| 0 <= i < j < s.len() ==> s[i] < s[j]
}

/// Insert a value into a strictly increasing vector, keeping it so.
fn insert_sorted_unique(v: &mut Vec<usize>, x: usize)
    requires
        sorted_unique(old(v)@),
    ensures
        sorted_unique(final(v)@),
        final(v)@.to_set() == old(v)@.to_set().insert(x),
{
    let mut i: usize = 0;
    while i < v.len() && v[i] < x
        invariant
            0 <= i <= v@.len(),
            sorted_unique(v@),
            v == old(v),
            forall|k: int| 0 <= k < i ==> v@[k] < x,
        decreases v@.len() - i,
    {
        i = i + 1;
    }
    if i < v.len() && v[i] == x {
        proof {
            assert(v@.to_set().contains(x));
            assert(v@.to_set() =~= old(v)@.to_set().insert(x));
        }
        return ;
    }
    v.insert(i, x);
    proof {
        let newv: Seq<usize> = v@;
        let oldv: Seq<usize> = old(v)@;
        assert forall|p: int, q: int| 0 <= p < q < newv.len() implies newv[p] < newv[q] by {
            if q < i {
                assert(newv[p] == oldv[p] && newv[q] == oldv[q]);
            } else if p > i {
                assert(newv[p] == oldv[p - 1] && newv[q] == oldv[q - 1]);
            } else if p == i {
                assert(newv[p] == x && newv[q] == oldv[q - 1]);
                assert(oldv[q - 1] >= oldv[i as int]);
                assert(oldv[i as int] > x || oldv[i as int] == x);
                assert(oldv[i as int] != x);
            } else if q == i {
                assert(newv[p] == oldv[p] && newv[q] == x);
            } else {
                assert(newv[p] == oldv[p] && newv[q] == oldv[q - 1]);
                assert(oldv[q - 1] >= oldv[i as int]);
            }
        }
        assert forall|y: usize| newv.to_set().contains(y) implies oldv.to_set().insert(x).contains(
            y,
        ) by {
            let k: int = choose|k: int| 0 <= k < newv.len() && newv[k] == y;
            if k < i {
                assert(oldv[k] == y);
            } else if k > i {
                assert(oldv[k - 1] == y);
            }
        }
        assert forall|y: usize| oldv.to_set().insert(x).contains(y) implies newv.to_set().contains(
            y,
        ) by {
            if y == x {
                assert(newv[i as int] == y);
            } else {
                let k: int = choose|k: int| 0 <= k < oldv.len() && oldv[k] == y;
                if k < i {
                    assert(newv[k] == y);
                } else {
                    assert(newv[k + 1] == y);
                }
            }
        }
        assert(newv.to_set() =~= oldv.to_set().insert(x));
    }
}

/// Decode a stored hash string; the empty string stands for no hash.
fn process_encoded_hash(encoded_hash: &str) -> (r: Option<Vec<u8>>)
    ensures
        r matches Some(b) ==> spec_stored_hash(encoded_hash@) == Some(b@),
        r is None ==> spec_stored_hash(encoded_hash@) is None,
{
    if encoded_hash.unicode_len() == 0 {
        None
    } else {
        match decode_hash(encoded_hash) {
            Some(b) => {
                if b.len() <= usize::MAX / 8 {
                    Some(b)
                } else {
                    None
                }
            },
            None => None,
        }
    }
}

/// One tracked file.
#[derive(Debug, Clone)]
pub struct FileItem {
    /// The file path; the item's identity.
    pub path: String,
    /// Capture timestamp, seconds since the Unix epoch.
    pub timestamp: i64,
    /// Whether the file is kept (taken over) when sieving.
    pub take_over: bool,
    /// Indices of similar items in the owning list.
    pub similar: Vec<usize>,
    /// Orientation, where the source recorded one.
    pub orientation: Option<Orientation>,
    /// Perceptual hash bytes, once computed.
    pub hash: Option<Vec<u8>>,
    /// The kind of file, classified from the path's extension.
    pub item_type: Option<ItemType>,
}

impl FileItem {
    /// The hash is short enough to re-encode on this machine.
    pub open spec fn hash_ok(self) -> bool {
        self.hash matches Some(h) ==> 8 * h@.len() <= usize::MAX
    }

    /// Create an item for a tracked path; timestamp and orientation come
    /// from the resolver, the hash from its stored encoding.
    pub fn new<R: PropertyResolver>(
        path: String,
        property_resolver: &R,
        take_over: bool,
        encoded_hash: &str,
    ) -> (r: FileItem)
        requires
            spec_is_any(path@),
        ensures
            r.path == path,
            r.take_over == take_over,
            r.similar@ == Seq::<usize>::empty(),
            r.item_type == spec_item_type(path@),
            r.item_type is Some,
            spec_hash_view(r.hash) == spec_stored_hash(encoded_hash@),
            r.hash_ok(),
    {
        let timestamp: i64 = property_resolver.get_timestamp();
        let orientation: Option<Orientation> = property_resolver.get_orientation();
        let hash: Option<Vec<u8>> = process_encoded_hash(encoded_hash);
        let item_type: Option<ItemType> = get_item_type(path.as_str());
        FileItem { path, timestamp, take_over, similar: Vec::new(), orientation, hash, item_type }
    }

    /// A bare item with the given path, timestamp and keep flag.
    pub fn dummy(path: &str, timestamp: i64, take_over: bool) -> (r: FileItem)
        ensures
            r.path@ == path@,
            r.timestamp == timestamp,
            r.take_over == take_over,
            r.similar@ == Seq::<usize>::empty(),
            r.orientation == Some(Orientation::Landscape),
            r.hash is None,
            r.item_type == spec_item_type(path@),
            r.hash_ok(),
    {
        let item_type: Option<ItemType> = get_item_type(path);
        FileItem {
            path: String::from_str(path),
            timestamp,
            take_over,
            similar: Vec::new(),
            orientation: Some(Orientation::Landscape),
            hash: None,
            item_type,
        }
    }

    /// Set whether the file is kept when sieving.
    pub fn set_take_over(&mut self, take_over: bool)
        ensures
            *final(self) == (FileItem { take_over, ..*old(self) }),
    {
        self.take_over = take_over;
    }

    /// Whether the file is kept when sieving.
    pub fn get_take_over(&self) -> (r: bool)
        ensures
            r == self.take_over,
    {
        self.take_over
    }

    /// The capture timestamp.
    pub fn get_timestamp(&self) -> (r: i64)
        ensures
            r == self.timestamp,
    {
        self.timestamp
    }

    /// Record the given indices as similar.
    pub fn add_similar_vec(&mut self, similars: &Vec<usize>)
        ensures
            *final(self) == (FileItem { similar: final(self).similar, ..*old(self) }),
            final(self).similar@ == old(self).similar@ + similars@,
    {
        let mut i: usize = 0;
        while i < similars.len()
            invariant
                0 <= i <= similars@.len(),
                *self == (FileItem { similar: self.similar, ..*old(self) }),
                self.similar@ == old(self).similar@ + similars@.subrange(0, i as int),
            decreases similars@.len() - i,
        {
            self.similar.push(similars[i]);
            proof {
                assert(old(self).similar@ + similars@.subrange(0, i as int + 1) =~= (old(
                    self,
                ).similar@ + similars@.subrange(0, i as int)).push(similars@[i as int]));
            }
            i = i + 1;
        }
        proof {
            assert(similars@.subrange(0, similars@.len() as int) =~= similars@);
        }
    }

    /// Record the index range `start..end` as similar.
    pub fn add_similar_range(&mut self, start: usize, end: usize)
        requires
            start <= end,
        ensures
            *final(self) == (FileItem { similar: final(self).similar, ..*old(self) }),
            final(self).similar@ == old(self).similar@ + Seq::new(
                (end - start) as nat,
                |k: int| (start + k) as usize,
            ),
    {
        let ghost added: Seq<usize> = Seq::new((end - start) as nat, |k: int| (start + k) as usize);
        let mut j: usize = start;
        while j < end
            invariant
                start <= j <= end,
                *self == (FileItem { similar: self.similar, ..*old(self) }),
                self.similar@ == old(self).similar@ + added.subrange(0, j - start),
                added == Seq::new((end - start) as nat, |k: int| (start + k) as usize),
            decreases end - j,
        {
            self.similar.push(j);
            proof {
                assert(old(self).similar@ + added.subrange(0, j - start + 1) =~= (old(
                    self,
                ).similar@ + added.subrange(0, j - start)).push(j));
            }
            j = j + 1;
        }
        proof {
            assert(added.subrange(0, added.len() as int) =~= added);
        }
    }

    /// The indices recorded as similar.
    pub fn get_similars(&self) -> (r: &Vec<usize>)
        ensures
            r == self.similar,
    {
        &self.similar
    }

    /// Forget all recorded similar indices.
    pub fn reset_similars(&mut self)
        ensures
            *final(self) == (FileItem { similar: final(self).similar, ..*old(self) }),
            final(self).similar@ == Seq::<usize>::empty(),
    {
        self.similar.clear();
    }

    /// Sort the similar indices, drop duplicates and the item's own index.
    pub fn clean_similars(&mut self, item_index: usize)
        ensures
            *final(self) == (FileItem { similar: final(self).similar, ..*old(self) }),
            sorted_unique(final(self).similar@),
            final(self).similar@.to_set() == old(self).similar@.to_set().remove(item_index),
    {
        let mut cleaned: Vec<usize> = Vec::new();
        let mut i: usize = 0;
        proof {
            assert(cleaned@.to_set() =~= old(self).similar@.subrange(0, 0).to_set().remove(
                item_index,
            ));
        }
        while i < self.similar.len()
            invariant
                0 <= i <= self.similar@.len(),
                *self == *old(self),
                sorted_unique(cleaned@),
                cleaned@.to_set() == old(self).similar@.subrange(0, i as int).to_set().remove(
                    item_index,
                ),
            decreases self.similar@.len() - i,
        {
            let s: usize = self.similar[i];
            let ghost prefix: Seq<usize> = old(self).similar@.subrange(0, i as int);
            if s != item_index {
                insert_sorted_unique(&mut cleaned, s);
            }
            proof {
                assert(old(self).similar@.subrange(0, i as int + 1) =~= prefix.push(s));
                lemma_to_set_push(prefix, s);
                if s != item_index {
                    assert(cleaned@.to_set() =~= prefix.push(s).to_set().remove(item_index));
                } else {
                    assert(cleaned@.to_set() =~= prefix.push(s).to_set().remove(item_index));
                }
            }
            i = i + 1;
        }
        proof {
            assert(old(self).similar@.subrange(0, old(self).similar@.len() as int) =~= old(
                self,
            ).similar@);
        }
        self.similar = cleaned;
    }

    /// The orientation, where one was recorded.
    pub fn get_orientation(&self) -> (r: Option<&Orientation>)
        ensures
            r matches Some(o) ==> self.orientation == Some(*o),
            r is None ==> self.orientation is None,
    {
        self.orientation.as_ref()
    }

    /// Whether the item is an ordinary image.
    pub fn is_image(&self) -> (r: bool)
        ensures
            r == (self.item_type == Some(ItemType::Image)),
    {
        matches!(self.item_type, Some(ItemType::Image))
    }

    /// Whether the item is a raw camera image.
    pub fn is_raw_image(&self) -> (r: bool)
        ensures
            r == (self.item_type == Some(ItemType::RawImage)),
    {
        matches!(self.item_type, Some(ItemType::RawImage))
    }

    /// Whether the item is a video.
    pub fn is_video(&self) -> (r: bool)
        ensures
            r == (self.item_type == Some(ItemType::Video)),
    {
        matches!(self.item_type, Some(ItemType::Video))
    }

    /// Store a computed perceptual hash.
    pub fn set_hash(&mut self, hash: Vec<u8>)
        requires
            8 * hash@.len() <= usize::MAX,
        ensures
            *final(self) == (FileItem { hash: Some(hash), ..*old(self) }),
            final(self).hash_ok(),
    {
        self.hash = Some(hash);
    }

    /// Store a hash from its encoded form; the empty string clears it.
    pub fn set_encoded_hash(&mut self, encoded_hash: &str)
        ensures
            *final(self) == (FileItem { hash: final(self).hash, ..*old(self) }),
            spec_hash_view(final(self).hash) == spec_stored_hash(encoded_hash@),
            final(self).hash_ok(),
    {
        self.hash = process_encoded_hash(encoded_hash);
    }

    /// The hash in its encoded form; the empty string when there is none.
    pub fn get_encoded_hash(&self) -> (r: String)
        requires
            self.hash_ok(),
        ensures
            self.hash matches Some(h) ==> r@ == hash_base64_chars(h@),
            self.hash is None ==> r@ == Seq::<char>::empty(),
    {
        match &self.hash {
            Some(h) => encode_hash(h),
            None => String::new(),
        }
    }

    /// Whether a perceptual hash is stored.
    pub fn has_hash(&self) -> (r: bool)
        ensures
            r == (self.hash is Some),
    {
        matches!(self.hash, Some(_))
    }

    /// The Hamming distance to another item's hash; `u32::MAX` when either
    /// item has none.
    pub fn get_hash_distance(&self, other: &FileItem) -> (r: u32)
        ensures
            r as int == spec_hash_distance(*self, *other),
    {
        match (&self.hash, &other.hash) {
            (Some(a), Some(b)) => hamming_distance(a, b),
            _ => u32::MAX,
        }
    }
}

/// Whether an item still needs a perceptual hash: an ordinary or raw
/// image that has none stored yet.
pub open spec fn spec_hash_candidate(it: FileItem) -> bool {
    (it.item_type == Some(ItemType::Image) || it.item_type == Some(ItemType::RawImage)) && (
    it.hash is None)
}

/// Two items agree on every field except possibly `similar`.
pub open spec fn same_but_similar(a: FileItem, b: FileItem) -> bool {
    &&& a.path == b.path
    &&& a.timestamp == b.timestamp
    &&& a.take_over == b.take_over
    &&& a.orientation == b.orientation
    &&& a.hash == b.hash
    &&& a.item_type == b.item_type
}

/// The bytes of an optional hash.
pub open spec fn spec_hash_view(h: Option<Vec<u8>>) -> Option<Seq<u8>> {
    match h {
        Some(v) => Some(v@),
        None => None,
    }
}

/// The hash distance of two items: the Hamming distance of their hashes,
/// saturated at `u32::MAX`, or `u32::MAX` when either has no hash.
pub open spec fn spec_hash_distance(a: FileItem, b: FileItem) -> int {
    match (a.hash, b.hash) {
        (Some(x), Some(y)) => if hamming(x@, y@) > u32::MAX {
            u32::MAX as int
        } else {
            hamming(x@, y@)
        },
        _ => u32::MAX as int,
    }
}

pub proof fn lemma_to_set_push(s: Seq<usize>, x: usize)
    ensures
        s.push(x).to_set() == s.to_set().insert(x),
{
    assert forall|y: usize| s.push(x).to_set().contains(y) implies s.to_set().insert(x).contains(
        y,
    ) by {
        let k: int = choose|k: int| 0 <= k < s.push(x).len() && s.push(x)[k] == y;
        if k < s.len() {
            assert(s[k] == y);
        }
    }
    assert forall|y: usize| s.to_set().insert(x).contains(y) implies s.push(x).to_set().contains(
        y,
    ) by {
        if y == x {
            assert(s.push(x)[s.len() as int] == y);
        } else {
            let k: int = choose|k: int| 0 <= k < s.len() && s[k] == y;
            assert(s.push(x)[k] == y);
        }
    }
    assert(s.push(x).to_set() =~= s.to_set().insert(x));
}

} // verus!
