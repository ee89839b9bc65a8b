//! Images of the history: their MIME type, their data URL, and an
//! in-memory cache of image bytes keyed by content hash.

use vstd::prelude::*;

verus! {

/// Whether `b` begins with `prefix`.
pub open spec fn starts_with(b: Seq<u8>, prefix: Seq<u8>) -> bool {
    prefix.len() <= b.len() && b.subrange(0, prefix.len() as int) == prefix
}

/// The MIME type told by an image's leading bytes; PNG when none matches.
pub open spec fn mime_of(b: Seq<u8>) -> Seq<char> {
    if starts_with(b, seq![0x89u8, 0x50u8, 0x4Eu8, 0x47u8]) {
        "image/png"@
    } else if starts_with(b, seq![0xFFu8, 0xD8u8, 0xFFu8]) {
        "image/jpeg"@
    } else if starts_with(b, seq![0x47u8, 0x49u8, 0x46u8, 0x38u8]) {
        "image/gif"@
    } else {
        "image/png"@
    }
}

/// Whether `data` begins with the bytes `p`.
fn has_prefix(data: &[u8], p: &[u8]) -> (r: bool)
    ensures
        r == starts_with(data@, p@),
{
    if p.len() > data.len() {
        return false;
    }
    let mut i: usize = 0;
    while i < p.len()
        invariant
            p@.len() <= data@.len(),
            0 <= i <= p@.len(),
            forall|j: int| 0 <= j < i ==> data@[j] == p@[j],
        decreases p@.len() - i,
    {
        if data[i] != p[i] {
            proof {
                assert(data@.subrange(0, p@.len() as int)[i as int] != p@[i as int]);
            }
            return false;
        }
        i = i + 1;
    }
    proof {
        assert(data@.subrange(0, p@.len() as int) =~= p@);
    }
    true
}

/// Detects the MIME type of an image from its magic bytes.
pub fn detect_image_mime(data: &[u8]) -> (r: &'static str)
    ensures
        r@ == mime_of(data@),
{
    let png: [u8; 4] = [0x89, 0x50, 0x4E, 0x47];
    let jpeg: [u8; 3] = [0xFF, 0xD8, 0xFF];
    let gif: [u8; 4] = [0x47, 0x49, 0x46, 0x38];
    proof {
        assert(png@ =~= seq![0x89u8, 0x50u8, 0x4Eu8, 0x47u8]);
        assert(jpeg@ =~= seq![0xFFu8, 0xD8u8, 0xFFu8]);
        assert(gif@ =~= seq![0x47u8, 0x49u8, 0x46u8, 0x38u8]);
    }
    if has_prefix(data, png.as_slice()) {
        "image/png"
    } else if has_prefix(data, jpeg.as_slice()) {
        "image/jpeg"
    } else if has_prefix(data, gif.as_slice()) {
        "image/gif"
    } else {
        "image/png"
    }
}

/// The standard base64 encoding, with padding, of a byte string.
pub uninterp spec fn base64_standard(b: Seq<u8>) -> Seq<char>;

/// Relies on `base64::Engine::encode` with the `STANDARD` engine: padded
/// standard-alphabet base64 of the input, four characters per started group
/// of three bytes. It panics only when that length overflows `usize`.
#[verifier::external_body]
fn encode_base64(data: &[u8]) -> (r: String)
    requires
        data@.len() / 3 * 4 + 4 <= usize::MAX,
    ensures
        r@ == base64_standard(data@),
        r@.len() == 4 * ((data@.len() + 2) / 3),
{
    base64::Engine::encode(&base64::engine::general_purpose::STANDARD, data)
}

/// The data URL of an image: its MIME type and its base64 encoding.
pub open spec fn data_url_of(b: Seq<u8>) -> Seq<char> {
    "data:"@ + mime_of(b) + ";base64,"@ + base64_standard(b)
}

/// Builds the data URL under which an image's bytes are served.
pub fn image_data_url(data: &[u8]) -> (r: String)
    requires
        data@.len() / 3 * 4 + 4 <= usize::MAX,
    ensures
        r@ == data_url_of(data@),
{
    let mime = detect_image_mime(data);
    let encoded = encode_base64(data);
    let mut url = String::from_str("data:");
    url.append(mime);
    url.append(";base64,");
    url.append(encoded.as_str());
    url
}

/// One cached image.
#[derive(Clone, Debug)]
pub struct CachedImage {
    pub hash: String,
    pub data: Vec<u8>,
}

/// In-memory cache of image bytes by content hash, each hash at most once.
pub struct ImageCache {
    images: Vec<CachedImage>,
}

/// A copy of a byte vector.
fn copy_bytes(b: &Vec<u8>) -> (r: Vec<u8>)
    ensures
        r@ == b@,
{
    let mut out: Vec<u8> = Vec::new();
    let mut i: usize = 0;
    while i < b.len()
        invariant
            0 <= i <= b@.len(),
            out@ == b@.take(i as int),
        decreases b@.len() - i,
    {
        out.push(b[i]);
        proof {
            assert(out@ =~= b@.take(i + 1));
        }
        i = i + 1;
    }
    proof {
        assert(b@.take(b@.len() as int) =~= b@);
    }
    out
}

impl ImageCache {
    /// The cached bytes of each hash.
    pub closed spec fn contents(&self) -> Map<Seq<char>, Seq<u8>> {
        Map::new(
            |h: Seq<char>| exists|i: int| 0 <= i < self.images@.len() && self.images@[i].hash@ == h,
            |h: Seq<char>|
                {
                    let i = choose|i: int| 0 <= i < self.images@.len() && self.images@[i].hash@ == h;
                    self.images@[i].data@
                },
        )
    }

    /// No hash is cached twice.
    pub closed spec fn wf(&self) -> bool {
        forall|i: int, j: int|
            0 <= i < j < self.images@.len() ==> #[trigger] self.images@[i].hash@
                != #[trigger] self.images@[j].hash@
    }

    /// An empty cache.
    pub fn new() -> (r: Self)
        ensures
            r.wf(),
            r.contents() == Map::<Seq<char>, Seq<u8>>::empty(),
    {
        let r = ImageCache { images: Vec::new() };
        proof {
            assert(r.contents() =~= Map::<Seq<char>, Seq<u8>>::empty());
        }
        r
    }

    /// Position of `hash` in the cache, if cached.
    fn position(&self, hash: &String) -> (r: Option<usize>)
        requires
            self.wf(),
        ensures
            match r {
                Some(i) => i < self.images@.len() && self.images@[i as int].hash@ == hash@,
                None => forall|i: int| 0 <= i < self.images@.len() ==> self.images@[i].hash@ != hash@,
            },
    {
        let mut i: usize = 0;
        while i < self.images.len()
            invariant
                0 <= i <= self.images@.len(),
                forall|j: int| 0 <= j < i ==> self.images@[j].hash@ != hash@,
            decreases self.images@.len() - i,
        {
            if self.images[i].hash == *hash {
                return Some(i);
            }
            i = i + 1;
        }
        None
    }

    /// The cached bytes of `hash`, if any.
    pub fn get(&self, hash: &str) -> (r: Option<Vec<u8>>)
        requires
            self.wf(),
        ensures
            match r {
                Some(d) => self.contents().contains_key(hash@) && d@ == self.contents()[hash@],
                None => !self.contents().contains_key(hash@),
            },
    {
        let key = hash.to_owned();
        match self.position(&key) {
            Some(i) => {
                proof {
                    let h = hash@;
                    assert(self.contents().contains_key(h));
                    let k = choose|k: int| 0 <= k < self.images@.len() && self.images@[k].hash@ == h;
                    assert(k == i as int) by {
                        if k != i {
                            if k < i {
                                assert(self.images@[k].hash@ != self.images@[i as int].hash@);
                            } else {
                                assert(self.images@[i as int].hash@ != self.images@[k].hash@);
                            }
                        }
                    }
                }
                Some(copy_bytes(&self.images[i].data))
            },
            None => None,
        }
    }

    /// Caches `data` under `hash`, replacing what was cached under it.
    pub fn insert(&mut self, hash: String, data: Vec<u8>)
        requires
            old(self).wf(),
        ensures
            final(self).wf(),
            final(self).contents() == old(self).contents().insert(hash@, data@),
    {
        let ghost h = hash@;
        let ghost d = data@;
        let ghost pre = self.images@;
        match self.position(&hash) {
            Some(i) => {
                self.images.set(i, CachedImage { hash, data });
                proof {
                    let post = self.images@;
                    assert forall|a: int, b: int| 0 <= a < b < post.len() implies #[trigger] post[a].hash@
                        != #[trigger] post[b].hash@ by {
                        if a != i && b != i {
                            assert(pre[a].hash@ != pre[b].hash@);
                        } else if a == i {
                            assert(pre[i as int].hash@ != pre[b].hash@);
                        } else {
                            assert(pre[a].hash@ != pre[i as int].hash@);
                        }
                    }
                    assert forall|k: Seq<char>| #[trigger] self.contents().contains_key(k) implies self.contents()[k]
                        == old(self).contents().insert(h, d)[k] by {
                        let j = choose|j: int| 0 <= j < post.len() && post[j].hash@ == k;
                        if k != h {
                            assert(j != i);
                            assert(pre[j].hash@ == k);
                            let j0 = choose|j0: int| 0 <= j0 < pre.len() && pre[j0].hash@ == k;
                            if j0 != j {
                                if j0 < j {
                                    assert(pre[j0].hash@ != pre[j].hash@);
                                } else {
                                    assert(pre[j].hash@ != pre[j0].hash@);
                                }
                            }
                        } else {
                            if j != i {
                                if j < i {
                                    assert(post[j].hash@ != post[i as int].hash@);
                                } else {
                                    assert(post[i as int].hash@ != post[j].hash@);
                                }
                            }
                        }
                    }
                    assert forall|k: Seq<char>| #[trigger] self.contents().contains_key(k) <==> old(
                        self,
                    ).contents().insert(h, d).contains_key(k) by {
                        if k != h && old(self).contents().contains_key(k) {
                            let j0 = choose|j0: int| 0 <= j0 < pre.len() && pre[j0].hash@ == k;
                            assert(post[j0].hash@ == k);
                        }
                        if self.contents().contains_key(k) && k != h {
                            let j = choose|j: int| 0 <= j < post.len() && post[j].hash@ == k;
                            assert(pre[j].hash@ == k);
                        }
                        if k == h {
                            assert(post[i as int].hash@ == k);
                        }
                    }
                    assert(self.contents() =~= old(self).contents().insert(h, d));
                }
            },
            None => {
                self.images.push(CachedImage { hash, data });
                proof {
                    let post = self.images@;
                    let n = pre.len() as int;
                    assert forall|a: int, b: int| 0 <= a < b < post.len() implies #[trigger] post[a].hash@
                        != #[trigger] post[b].hash@ by {
                        if b == n {
                            assert(post[a] == pre[a]);
                        } else {
                            assert(pre[a].hash@ != pre[b].hash@);
                        }
                    }
                    assert forall|k: Seq<char>| #[trigger] self.contents().contains_key(k) implies self.contents()[k]
                        == old(self).contents().insert(h, d)[k] by {
                        let j = choose|j: int| 0 <= j < post.len() && post[j].hash@ == k;
                        if k != h {
                            assert(j != n);
                            assert(pre[j].hash@ == k);
                            let j0 = choose|j0: int| 0 <= j0 < pre.len() && pre[j0].hash@ == k;
                            if j0 != j {
                                if j0 < j {
                                    assert(pre[j0].hash@ != pre[j].hash@);
                                } else {
                                    assert(pre[j].hash@ != pre[j0].hash@);
                                }
                            }
                        } else {
                            assert(j == n);
                        }
                    }
                    assert forall|k: Seq<char>| #[trigger] self.contents().contains_key(k) <==> old(
                        self,
                    ).contents().insert(h, d).contains_key(k) by {
                        if k != h && old(self).contents().contains_key(k) {
                            let j0 = choose|j0: int| 0 <= j0 < pre.len() && pre[j0].hash@ == k;
                            assert(post[j0].hash@ == k);
                        }
                        if self.contents().contains_key(k) && k != h {
                            let j = choose|j: int| 0 <= j < post.len() && post[j].hash@ == k;
                            assert(pre[j].hash@ == k);
                        }
                        if k == h {
                            assert(post[n].hash@ == k);
                        }
                    }
                    assert(self.contents() =~= old(self).contents().insert(h, d));
                }
            },
        }
    }
}

} // verus!
