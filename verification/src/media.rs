//! The media registry: the announced catalog of file names and digests,
//! which digests the on-disk cache already holds, the file bytes received
//! this session, and a small index of decoded images. Reading and writing
//! the disk cache itself is the host's business; it feeds this registry
//! plain values.

use crate::clientbound::MediaFile;
use crate::transport::views_of;
use vstd::prelude::*;

verus! {

/// One announced file: its name and its (decoded) digest.
#[derive(Debug, Clone)]
pub struct MediaDigest {
    pub name: String,
    pub digest: Vec<u8>,
}

impl View for MediaDigest {
    type V = (Seq<char>, Seq<u8>);

    open spec fn view(&self) -> (Seq<char>, Seq<u8>) {
        (self.name@, self.digest@)
    }
}

impl DeepView for MediaDigest {
    type V = (Seq<char>, Seq<u8>);

    open spec fn deep_view(&self) -> (Seq<char>, Seq<u8>) {
        self@
    }
}

/// A decoded image handed over by the host (the core never parses image
/// formats itself).
#[derive(Debug, Clone)]
pub struct Image {
    pub width: u32,
    pub height: u32,
    pub data: Vec<u8>,
}

impl Image {
    pub fn new(width: u32, height: u32, data: Vec<u8>) -> (r: Image)
        ensures
            r.width == width,
            r.height == height,
            r.data@ == data@,
    {
        Image { width, height, data }
    }

    pub fn width(&self) -> (r: u32)
        ensures
            r == self.width,
    {
        self.width
    }

    pub fn height(&self) -> (r: u32)
        ensures
            r == self.height,
    {
        self.height
    }

    pub fn data(&self) -> (r: &Vec<u8>)
        ensures
            r@ == self.data@,
    {
        &self.data
    }
}

/// Whether `cached` holds a digest with these bytes.
pub open spec fn digest_cached(cached: Seq<Seq<u8>>, d: Seq<u8>) -> bool {
    exists|i: int| 0 <= i < cached.len() && (#[trigger] cached[i]) == d
}

/// The names of the announced files whose digest is not cached, in
/// announcement order.
pub open spec fn missing_names(ds: Seq<(Seq<char>, Seq<u8>)>, cached: Seq<Seq<u8>>) -> Seq<
    Seq<char>,
>
    decreases ds.len(),
{
    if ds.len() == 0 {
        Seq::<Seq<char>>::empty()
    } else {
        (if digest_cached(cached, ds[0].1) {
            Seq::<Seq<char>>::empty()
        } else {
            seq![ds[0].0]
        }) + missing_names(ds.drop_first(), cached)
    }
}

/// Whether a name was announced.
pub open spec fn name_announced(ds: Seq<(Seq<char>, Seq<u8>)>, name: Seq<char>) -> bool {
    exists|i: int| 0 <= i < ds.len() && (#[trigger] ds[i]).0 == name
}

/// No announced name appears twice. The reference catalog was a map, so
/// it held this by construction; here it is the hypothesis under which the
/// missing list is duplicate-free.
pub open spec fn catalog_names_unique(ds: Seq<(Seq<char>, Seq<u8>)>) -> bool {
    forall|a: int, b: int| 0 <= a < b < ds.len() ==> (#[trigger] ds[a]).0 != (#[trigger] ds[b]).0
}

/// Every missing name is an announced name.
proof fn lemma_missing_names_subset(ds: Seq<(Seq<char>, Seq<u8>)>, cached: Seq<Seq<u8>>)
    ensures
        forall|k: int|
            0 <= k < missing_names(ds, cached).len() ==> name_announced(
                ds,
                #[trigger] missing_names(ds, cached)[k],
            ),
    decreases ds.len(),
{
    if ds.len() > 0 {
        lemma_missing_names_subset(ds.drop_first(), cached);
        let head = (if digest_cached(cached, ds[0].1) {
            Seq::<Seq<char>>::empty()
        } else {
            seq![ds[0].0]
        });
        let tail = missing_names(ds.drop_first(), cached);
        assert forall|k: int|
            0 <= k < missing_names(ds, cached).len() implies name_announced(
            ds,
            #[trigger] missing_names(ds, cached)[k],
        ) by {
            if k < head.len() {
                assert(missing_names(ds, cached)[k] == ds[0].0);
                assert(ds[0].0 == ds[0].0);
            } else {
                assert(missing_names(ds, cached)[k] == tail[k - head.len()]);
                let w = choose|w: int|
                    0 <= w < ds.drop_first().len() && ds.drop_first()[w].0 == tail[k - head.len()];
                assert(ds[w + 1].0 == tail[k - head.len()]);
            }
        }
    }
}

/// With unique announced names, the missing list holds no duplicates.
proof fn lemma_missing_names_unique(ds: Seq<(Seq<char>, Seq<u8>)>, cached: Seq<Seq<u8>>)
    requires
        catalog_names_unique(ds),
    ensures
        forall|a: int, b: int|
            0 <= a < b < missing_names(ds, cached).len() ==> (#[trigger] missing_names(
                ds,
                cached,
            )[a]) != (#[trigger] missing_names(ds, cached)[b]),
    decreases ds.len(),
{
    if ds.len() > 0 {
        assert forall|a: int, b: int|
            0 <= a < b < ds.drop_first().len() implies (#[trigger] ds.drop_first()[a]).0 != (
        #[trigger] ds.drop_first()[b]).0 by {
            assert(ds.drop_first()[a] == ds[a + 1]);
            assert(ds.drop_first()[b] == ds[b + 1]);
        }
        lemma_missing_names_unique(ds.drop_first(), cached);
        lemma_missing_names_subset(ds.drop_first(), cached);
        let head = (if digest_cached(cached, ds[0].1) {
            Seq::<Seq<char>>::empty()
        } else {
            seq![ds[0].0]
        });
        let tail = missing_names(ds.drop_first(), cached);
        assert forall|a: int, b: int|
            0 <= a < b < missing_names(ds, cached).len() implies (#[trigger] missing_names(
            ds,
            cached,
        )[a]) != (#[trigger] missing_names(ds, cached)[b]) by {
            if a < head.len() {
                // The head name cannot recur: it differs from every name
                // of the rest of the catalog.
                assert(missing_names(ds, cached)[a] == ds[0].0);
                assert(missing_names(ds, cached)[b] == tail[b - head.len()]);
                if missing_names(ds, cached)[b] == ds[0].0 {
                    let w = choose|w: int|
                        0 <= w < ds.drop_first().len() && ds.drop_first()[w].0 == tail[b
                            - head.len()];
                    assert(ds[w + 1].0 == ds[0].0);
                    assert(false);
                }
            } else {
                assert(missing_names(ds, cached)[a] == tail[a - head.len()]);
                assert(missing_names(ds, cached)[b] == tail[b - head.len()]);
            }
        }
    }
}

proof fn lemma_missing_names_snoc(ds: Seq<(Seq<char>, Seq<u8>)>, i: int, cached: Seq<Seq<u8>>)
    requires
        0 <= i < ds.len(),
    ensures
        missing_names(ds.take(i + 1), cached) == missing_names(ds.take(i), cached) + (
        if digest_cached(cached, ds[i].1) {
            Seq::<Seq<char>>::empty()
        } else {
            seq![ds[i].0]
        }),
    decreases i,
{
    let tail = (if digest_cached(cached, ds[i].1) {
        Seq::<Seq<char>>::empty()
    } else {
        seq![ds[i].0]
    });
    if i == 0 {
        assert(ds.take(0) =~= Seq::<(Seq<char>, Seq<u8>)>::empty());
        assert(ds.take(1)[0] == ds[0]);
        assert(ds.take(1).drop_first() =~= Seq::<(Seq<char>, Seq<u8>)>::empty());
        assert(missing_names(ds.take(1), cached) == tail + missing_names(
            Seq::<(Seq<char>, Seq<u8>)>::empty(),
            cached,
        ));
        assert(tail + Seq::<Seq<char>>::empty() =~= Seq::<Seq<char>>::empty() + tail);
    } else {
        let head = (if digest_cached(cached, ds[0].1) {
            Seq::<Seq<char>>::empty()
        } else {
            seq![ds[0].0]
        });
        assert(ds.take(i + 1)[0] == ds[0]);
        assert(ds.take(i + 1).drop_first() =~= ds.drop_first().take(i));
        assert(ds.take(i)[0] == ds[0]);
        assert(ds.take(i).drop_first() =~= ds.drop_first().take(i - 1));
        lemma_missing_names_snoc(ds.drop_first(), i - 1, cached);
        assert(ds.drop_first()[i - 1] == ds[i]);
        assert(missing_names(ds.take(i + 1), cached) == head + (missing_names(
            ds.drop_first().take(i - 1),
            cached,
        ) + tail));
        assert(head + (missing_names(ds.drop_first().take(i - 1), cached) + tail) =~= (head
            + missing_names(ds.drop_first().take(i - 1), cached)) + tail);
    }
}

/// The ASCII code of a hex digit, lower case.
pub open spec fn hex_digit(d: u8) -> u8 {
    if d < 10 {
        (48 + d) as u8
    } else {
        (87 + d) as u8
    }
}

/// The lowercase hex spelling of a byte string, as ASCII bytes: two
/// digits per byte, high nibble first.
pub open spec fn hex_bytes_of(b: Seq<u8>) -> Seq<u8>
    decreases b.len(),
{
    if b.len() == 0 {
        Seq::<u8>::empty()
    } else {
        seq![hex_digit(b[0] / 16), hex_digit(b[0] % 16)] + hex_bytes_of(b.drop_first())
    }
}

proof fn lemma_hex_bytes_snoc(b: Seq<u8>, i: int)
    requires
        0 <= i < b.len(),
    ensures
        hex_bytes_of(b.take(i + 1)) == hex_bytes_of(b.take(i)) + seq![
            hex_digit(b[i] / 16),
            hex_digit(b[i] % 16),
        ],
    decreases i,
{
    let tail = seq![hex_digit(b[i] / 16), hex_digit(b[i] % 16)];
    if i == 0 {
        assert(b.take(0) =~= Seq::<u8>::empty());
        assert(b.take(1)[0] == b[0]);
        assert(b.take(1).drop_first() =~= Seq::<u8>::empty());
        assert(hex_bytes_of(b.take(1)) == tail + hex_bytes_of(Seq::<u8>::empty()));
        assert(tail + Seq::<u8>::empty() =~= Seq::<u8>::empty() + tail);
    } else {
        let head = seq![hex_digit(b[0] / 16), hex_digit(b[0] % 16)];
        assert(b.take(i + 1)[0] == b[0]);
        assert(b.take(i + 1).drop_first() =~= b.drop_first().take(i));
        assert(b.take(i)[0] == b[0]);
        assert(b.take(i).drop_first() =~= b.drop_first().take(i - 1));
        lemma_hex_bytes_snoc(b.drop_first(), i - 1);
        assert(b.drop_first()[i - 1] == b[i]);
        assert(hex_bytes_of(b.take(i + 1)) == head + (hex_bytes_of(b.drop_first().take(i - 1))
            + tail));
        assert(head + (hex_bytes_of(b.drop_first().take(i - 1)) + tail) =~= (head + hex_bytes_of(
            b.drop_first().take(i - 1),
        )) + tail);
    }
}

/// Every hex digit is an ASCII byte.
proof fn lemma_hex_bytes_ascii(b: Seq<u8>)
    ensures
        forall|k: int| 0 <= k < hex_bytes_of(b).len() ==> (#[trigger] hex_bytes_of(b)[k]) < 0x80,
        hex_bytes_of(b).len() == 2 * b.len(),
    decreases b.len(),
{
    if b.len() > 0 {
        lemma_hex_bytes_ascii(b.drop_first());
        let head = seq![hex_digit(b[0] / 16), hex_digit(b[0] % 16)];
        assert forall|k: int| 0 <= k < hex_bytes_of(b).len() implies (#[trigger] hex_bytes_of(
            b,
        )[k]) < 0x80 by {
            if k >= 2 {
                assert(hex_bytes_of(b)[k] == hex_bytes_of(b.drop_first())[k - 2]);
            }
        }
    }
}

/// The lowercase hex spelling of a digest, used as its cache file name.
/// The returned string's UTF-8 bytes are exactly `hex_bytes_of` the input.
pub fn encode_hex(data: &Vec<u8>) -> (r: String)
    ensures
        vstd::utf8::encode_utf8(r@) == hex_bytes_of(data@),
{
    let n = data.len();
    let mut out: Vec<u8> = Vec::new();
    let mut k: usize = 0;
    proof {
        assert(data@.take(0) =~= Seq::<u8>::empty());
        assert(out@ =~= Seq::<u8>::empty());
    }
    while k < n
        invariant
            n == data@.len(),
            k <= n,
            out@ == hex_bytes_of(data@.take(k as int)),
        decreases n - k,
    {
        let byte = data[k];
        let hi = byte / 16;
        let lo = byte % 16;
        let ghost before = out@;
        out.push(if hi < 10 {
            48 + hi
        } else {
            87 + hi
        });
        out.push(if lo < 10 {
            48 + lo
        } else {
            87 + lo
        });
        proof {
            lemma_hex_bytes_snoc(data@, k as int);
            assert(out@ =~= before + seq![
                hex_digit(data@[k as int] / 16),
                hex_digit(data@[k as int] % 16),
            ]);
        }
        k = k + 1;
    }
    proof {
        assert(data@.take(n as int) =~= data@);
        lemma_hex_bytes_ascii(data@);
        assert forall|t: int| 0 <= 0 <= t < out@.len() <= out@.len()
            implies #[trigger] vstd::utf8::is_leading_byte_width_1(out@[t]) by {
            assert(out@[t] < 0x80);
        }
        assert(vstd::utf8::partial_valid_utf8(out@, 0)) by {
            assert(out@.subrange(0, 0) =~= Seq::<u8>::empty());
            assert(vstd::utf8::valid_utf8(Seq::<u8>::empty()));
        }
        vstd::utf8::partial_valid_utf8_extend_ascii_block(out@, 0, out@.len() as int);
        assert(out@.subrange(0, out@.len() as int) =~= out@);
        assert(vstd::utf8::valid_utf8(out@));
    }
    let ghost gout = out@;
    match crate::codec::string_from_utf8(out) {
        Some(s) => {
            proof {
                vstd::utf8::decode_utf8_encode_utf8(gout);
            }
            s
        },
        None => {
            // Unreachable: the digits are ASCII, so the bytes are UTF-8.
            proof {
                assert(false);
            }
            String::new()
        },
    }
}

/// Compares two byte strings.
pub fn bytes_eq(a: &Vec<u8>, b: &Vec<u8>) -> (r: bool)
    ensures
        r == (a@ == b@),
{
    if a.len() != b.len() {
        proof {
            assert(a@ != b@);
        }
        return false;
    }
    let n = a.len();
    let mut k: usize = 0;
    while k < n
        invariant
            n == a@.len(),
            n == b@.len(),
            k <= n,
            forall|t: int| 0 <= t < k ==> a@[t] == b@[t],
        decreases n - k,
    {
        if a[k] != b[k] {
            proof {
                assert(a@ != b@);
            }
            return false;
        }
        k = k + 1;
    }
    proof {
        assert(a@ =~= b@);
    }
    true
}

/// The announced catalog, the cached digests, the received files and the
/// image index.
pub struct MediaStorage {
    pub digests: Vec<MediaDigest>,
    pub cached: Vec<Vec<u8>>,
    pub files: Vec<MediaFile>,
    pub image_names: Vec<String>,
    pub indexed_images: Vec<Image>,
}

impl MediaStorage {
    pub fn new() -> (r: MediaStorage)
        ensures
            r.digests@.len() == 0,
            r.cached@.len() == 0,
            r.files@.len() == 0,
            r.indexed_images@.len() == 0,
    {
        MediaStorage {
            digests: Vec::new(),
            cached: Vec::new(),
            files: Vec::new(),
            image_names: Vec::new(),
            indexed_images: Vec::new(),
        }
    }

    /// Replaces the announced catalog.
    pub fn set_digests(&mut self, digests: Vec<MediaDigest>)
        ensures
            final(self).digests == digests,
            final(self).cached@ == old(self).cached@,
            final(self).files@ == old(self).files@,
            final(self).image_names@ == old(self).image_names@,
            final(self).indexed_images@ == old(self).indexed_images@,
    {
        self.digests = digests;
    }

    /// Records that the cache holds a blob with this digest.
    pub fn mark_cached(&mut self, digest: Vec<u8>)
        ensures
            final(self).cached@ == old(self).cached@.push(digest),
            final(self).digests@ == old(self).digests@,
            final(self).files@ == old(self).files@,
    {
        self.cached.push(digest);
    }

    /// Whether the cache holds a blob with this digest.
    pub fn contains(&self, digest: &Vec<u8>) -> (r: bool)
        ensures
            r == digest_cached(views_of(self.cached@), digest@),
    {
        let n = self.cached.len();
        let mut k: usize = 0;
        while k < n
            invariant
                n == self.cached@.len(),
                k <= n,
                forall|t: int| 0 <= t < k ==> views_of(self.cached@)[t] != digest@,
            decreases n - k,
        {
            if bytes_eq(&self.cached[k], digest) {
                proof {
                    assert(views_of(self.cached@)[k as int] == digest@);
                }
                return true;
            }
            k = k + 1;
        }
        false
    }

    /// The names of the announced files whose digest the cache does not
    /// hold, in announcement order.
    pub fn missing_files(&self) -> (r: Vec<String>)
        ensures
            r.deep_view() == missing_names(self.digests.deep_view(), views_of(self.cached@)),
            forall|k: int|
                0 <= k < r.deep_view().len() ==> name_announced(
                    self.digests.deep_view(),
                    #[trigger] r.deep_view()[k],
                ),
            catalog_names_unique(self.digests.deep_view()) ==> forall|a: int, b: int|
                0 <= a < b < r.deep_view().len() ==> (#[trigger] r.deep_view()[a]) != (
                #[trigger] r.deep_view()[b]),
    {
        proof {
            lemma_missing_names_subset(self.digests.deep_view(), views_of(self.cached@));
            if catalog_names_unique(self.digests.deep_view()) {
                lemma_missing_names_unique(self.digests.deep_view(), views_of(self.cached@));
            }
        }
        let ghost dv = self.digests.deep_view();
        let ghost cv = views_of(self.cached@);
        let mut out: Vec<String> = Vec::new();
        let n = self.digests.len();
        let mut k: usize = 0;
        proof {
            assert(dv.take(0) =~= Seq::<(Seq<char>, Seq<u8>)>::empty());
            assert(out.deep_view() =~= Seq::<Seq<char>>::empty());
        }
        while k < n
            invariant
                n == self.digests@.len(),
                dv == self.digests.deep_view(),
                cv == views_of(self.cached@),
                dv.len() == n,
                k <= n,
                out.deep_view() == missing_names(dv.take(k as int), cv),
            decreases n - k,
        {
            proof {
                lemma_missing_names_snoc(dv, k as int, cv);
                assert(dv[k as int] == (self.digests@[k as int].name@, self.digests@[
                    k as int].digest@));
            }
            let cached = self.contains(&self.digests[k].digest);
            if !cached {
                let ghost before = out.deep_view();
                out.push(clone_string(&self.digests[k].name));
                proof {
                    assert(out.deep_view() =~= before + seq![dv[k as int].0]);
                }
            } else {
                proof {
                    assert(out.deep_view() + Seq::<Seq<char>>::empty() =~= out.deep_view());
                }
            }
            k = k + 1;
        }
        proof {
            assert(dv.take(n as int) =~= dv);
        }
        out
    }

    /// Stores a received file if its name was announced; rejects an
    /// unannounced one.
    pub fn insert(&mut self, name: String, data: Vec<u8>) -> (r: bool)
        ensures
            r == name_announced(old(self).digests.deep_view(), name@),
            final(self).digests@ == old(self).digests@,
            final(self).cached@ == old(self).cached@,
            r ==> final(self).files@ == old(self).files@.push(MediaFile { name, data }),
            !r ==> final(self).files@ == old(self).files@,
    {
        let announced = self.name_is_announced(&name);
        if announced {
            self.files.push(MediaFile { name, data });
            true
        } else {
            false
        }
    }

    /// Whether a name is in the announced catalog.
    pub fn name_is_announced(&self, name: &String) -> (r: bool)
        ensures
            r == name_announced(self.digests.deep_view(), name@),
    {
        let n = self.digests.len();
        let mut k: usize = 0;
        while k < n
            invariant
                n == self.digests@.len(),
                k <= n,
                forall|t: int| 0 <= t < k ==> self.digests.deep_view()[t].0 != name@,
            decreases n - k,
        {
            if string_eq(&self.digests[k].name, name) {
                proof {
                    assert(self.digests.deep_view()[k as int].0 == name@);
                }
                return true;
            }
            proof {
                assert(self.digests.deep_view()[k as int].0 == self.digests@[k as int].name@);
            }
            k = k + 1;
        }
        false
    }

    /// Remembers a decoded image and returns its index.
    pub fn store_image_in_cache(&mut self, name: String, image: Image) -> (r: usize)
        ensures
            final(self).indexed_images@ == old(self).indexed_images@.push(image),
            r as int == old(self).indexed_images@.len(),
    {
        let index = self.indexed_images.len();
        self.image_names.push(name);
        self.indexed_images.push(image);
        index
    }
}

/// An exact copy of a string.
pub fn clone_string(s: &String) -> (r: String)
    ensures
        r@ == s@,
{
    s.as_str().to_owned()
}

/// Whether two strings hold the same characters.
pub fn string_eq(a: &String, b: &String) -> (r: bool)
    ensures
        r == (a@ == b@),
{
    a.eq(b)
}

} // verus!
