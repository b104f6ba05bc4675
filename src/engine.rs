use img_parts::ImageEXIF;
use rand::distr::SampleString;
use vstd::prelude::*;
use vstd::string::*;
use vstd::utf8::encode_utf8;

use crate::cache::{admitted, is_live, live_after, touched_after, Cache, EntryView};
use crate::config::{DiskConfig, EngineConfig};
use crate::deletion::{deletion_url, deletion_url_of};
use crate::disk::Disk;
use crate::hash::{calculate_hash, hash_input, sample_of, xxh3_128_of, SAMPLE_WANTED_BYTES};
use crate::names::{extension, extension_of};
use crate::range::{first_of, first_range, resolve_bounds, resolved};

verus! {

/// The bytes that stripping the metadata from the image `b` gives, or `None`
/// when `b` is not an image that can be parsed and written back.
pub uninterp spec fn exif_stripped_of(b: Seq<u8>) -> Option<Seq<u8>>;

/// Bytes that `img_parts` reads as a WebP file: longer than twelve bytes,
/// starting with `RIFF`, with `WEBP` at bytes 8 to 11.
pub open spec fn is_riff_webp(b: Seq<u8>) -> bool {
    &&& b.len() > 12
    &&& b[0] == 0x52u8 && b[1] == 0x49u8 && b[2] == 0x46u8 && b[3] == 0x46u8
    &&& b[8] == 0x57u8 && b[9] == 0x45u8 && b[10] == 0x42u8 && b[11] == 0x50u8
}

/// Whether `b` is read as a WebP file.
pub fn riff_webp(b: &Vec<u8>) -> (r: bool)
    ensures
        r == is_riff_webp(b@),
{
    b.len() > 12 && b[0] == 0x52u8 && b[1] == 0x49u8 && b[2] == 0x46u8 && b[3] == 0x46u8
        && b[8] == 0x57u8 && b[9] == 0x45u8 && b[10] == 0x42u8 && b[11] == 0x50u8
}

/// Relies on `img_parts::DynImage`: `from_bytes` parses a PNG, JPEG or WebP
/// image, `set_exif(None)` drops its EXIF block, and the encoder writes the
/// image back out. WebP files are left out: dropping their EXIF block can
/// panic on malformed VP8 data.
#[verifier::external_body]
fn strip_exif(b: &Vec<u8>) -> (r: Option<Vec<u8>>)
    requires
        !is_riff_webp(b@),
    ensures
        r matches Some(v) ==> exif_stripped_of(b@) == Some(v@),
        r is None ==> exif_stripped_of(b@) is None,
{
    match img_parts::DynImage::from_bytes(bytes::Bytes::from(b.clone())) {
        Ok(Some(mut img)) => {
            img.set_exif(None);
            Some(img.encoder().bytes().to_vec())
        },
        _ => None,
    }
}

/// An ASCII letter or digit.
pub open spec fn is_alnum(c: char) -> bool {
    ('a' <= c && c <= 'z') || ('A' <= c && c <= 'Z') || ('0' <= c && c <= '9')
}

/// Relies on `rand::distr::Alphanumeric` and `SampleString::sample_string`:
/// `len` characters, each drawn from the ASCII letters and digits.
#[verifier::external_body]
fn random_alphanumeric(len: usize) -> (r: String)
    ensures
        r@.len() == len,
        forall|i: int| 0 <= i < r@.len() ==> is_alnum(#[trigger] r@[i]),
{
    rand::distr::Alphanumeric.sample_string(&mut rand::rng(), len)
}

/// `b` with its metadata stripped, or `b` itself when it is a WebP file or
/// stripping fails.
pub open spec fn stripped_or(b: Seq<u8>) -> Seq<u8> {
    if is_riff_webp(b) {
        b
    } else {
        match exif_stripped_of(b) {
            Some(s) => s,
            None => b,
        }
    }
}

/// `a` and `lower` are the same letter, ignoring ASCII case.
pub open spec fn same_letter(a: char, lower: char) -> bool {
    a == lower || ('A' <= a && a <= 'Z' && a as u32 + 32 == lower as u32)
}

/// `e` spells `word` (given in lower case), ignoring ASCII case.
pub open spec fn same_word(e: Seq<char>, word: Seq<char>) -> bool {
    e.len() == word.len() && forall|i: int| 0 <= i < e.len() ==> same_letter(e[i], word[i])
}

/// An image extension whose metadata is stripped.
pub open spec fn is_image_ext(e: Seq<char>) -> bool {
    same_word(e, "png"@) || same_word(e, "jpg"@) || same_word(e, "jpeg"@) || same_word(e, "webp"@)
        || same_word(e, "tiff"@)
}

fn same_word_exec(e: &Vec<char>, word: &str) -> (r: bool)
    ensures
        r == same_word(e@, word@),
{
    let w = crate::names::chars_of(word);
    if e.len() != w.len() {
        return false;
    }
    let mut i: usize = 0;
    while i < e.len()
        invariant
            e@.len() == w@.len(),
            w@ == word@,
            i <= e@.len(),
            forall|j: int| 0 <= j < i ==> same_letter(e@[j], w@[j]),
        decreases e@.len() - i,
    {
        let a = e[i];
        let l = w[i];
        if !(a == l || ('A' <= a && a <= 'Z' && a as u32 + 32 == l as u32)) {
            return false;
        }
        i = i + 1;
    }
    true
}

/// Whether `e` is an image extension whose metadata is stripped.
pub fn image_ext(e: &str) -> (r: bool)
    ensures
        r == is_image_ext(e@),
{
    let c = crate::names::chars_of(e);
    same_word_exec(&c, "png") || same_word_exec(&c, "jpg") || same_word_exec(&c, "jpeg")
        || same_word_exec(&c, "webp") || same_word_exec(&c, "tiff")
}

/// Whether an upload is held back from disk until it is complete, so that its
/// image metadata can be stripped first.
pub open spec fn strip_eligible(
    saved_name: Seq<char>,
    use_cache: bool,
    keep_exif: bool,
    provided_len: u64,
    max_strip_len: u64,
) -> bool {
    &&& use_cache
    &&& match extension_of(saved_name) {
        Some(e) => is_image_ext(e),
        None => false,
    }
    &&& !keep_exif
    &&& provided_len <= max_strip_len
}

/// Appends the bytes `b` to `v`.
pub fn append_bytes(v: &mut Vec<u8>, b: &[u8])
    ensures
        final(v)@ == old(v)@ + b@,
{
    let mut i: usize = 0;
    while i < b.len()
        invariant
            i <= b@.len(),
            v@ == old(v)@ + b@.take(i as int),
        decreases b@.len() - i,
    {
        v.push(b[i]);
        i = i + 1;
        assert(v@ =~= old(v)@ + b@.take(i as int));
    }
    assert(b@.take(i as int) =~= b@);
}

/// Where the bytes of an upload response come from.
pub enum UploadData {
    /// These bytes, from memory.
    Cache(Vec<u8>),
    /// The range of the upload's file on disk.
    Disk,
}

/// An upload, or the requested part of it, with what a response needs.
pub struct UploadResponse {
    /// Length of the whole upload.
    pub full_len: u64,
    /// The inclusive byte range sent.
    pub range: (u64, u64),
    /// The bytes sent.
    pub data: UploadData,
}

/// Outcomes of processing an upload; all but the first are rejections.
pub enum ProcessOutcome {
    /// The upload was stored: its URL, and its deletion URL if deletion is
    /// enabled.
    Success { url: String, deletion_url: Option<String> },
    /// The upload is over the size limit.
    UploadTooLarge,
    /// A temporary upload is too big to be cached.
    TemporaryUploadTooLarge,
    /// A temporary upload asked for a lifetime over the limit.
    TemporaryUploadLifetimeTooLong,
}

/// Outcomes of fetching an upload.
pub enum GetOutcome {
    /// The upload, or the requested part of it.
    Success(UploadResponse),
    /// No upload has the name.
    NotFound,
    /// The requested range lies outside the upload.
    RangeNotSatisfiable,
}

/// Which admission rule an upload of `provided_len` bytes with an optional
/// `lifetime` meets under `cfg`: `Ok` with whether it is cached, or the
/// rejection. The rules apply in order: the size limit, a temporary upload too
/// big for the cache, a temporary lifetime over the limit.
pub open spec fn admission(cfg: EngineConfig, provided_len: u64, lifetime: Option<u64>) -> Result<
    bool,
    ProcessOutcome,
> {
    let use_cache = provided_len <= cfg.cache.max_length;
    if cfg.max_upload_len matches Some(l) && provided_len > l {
        Err(ProcessOutcome::UploadTooLarge)
    } else if lifetime is Some && !use_cache {
        Err(ProcessOutcome::TemporaryUploadTooLarge)
    } else if lifetime matches Some(lt) && lt > cfg.max_temp_lifetime {
        Err(ProcessOutcome::TemporaryUploadLifetimeTooLong)
    } else {
        Ok(use_cache)
    }
}

/// A saved name: a stem, then `.` and the extension if there is one.
pub open spec fn name_with_ext(stem: Seq<char>, ext: Option<Seq<char>>) -> Seq<char> {
    match ext {
        Some(e) => stem + seq!['.'] + e,
        None => stem,
    }
}

/// An upload being received: what goes to the cache, what goes to disk, and
/// the sample its deletion hash is taken over.
pub struct Upload {
    provided_len: u64,
    use_cache: bool,
    coalesce: bool,
    to_disk: bool,
    data: Vec<u8>,
    sample: Vec<u8>,
    observed_len: u64,
    seen: Ghost<Seq<u8>>,
    sent: Ghost<Seq<u8>>,
}

impl Upload {
    /// Every byte received so far.
    pub closed spec fn seen(&self) -> Seq<u8> {
        self.seen@
    }

    /// Every byte handed to the disk writer so far.
    pub closed spec fn sent(&self) -> Seq<u8> {
        self.sent@
    }

    /// The length the client announced.
    pub closed spec fn provided_len(&self) -> u64 {
        self.provided_len
    }

    /// Whether the upload is still headed for the cache.
    pub closed spec fn use_cache(&self) -> bool {
        self.use_cache
    }

    /// Whether the upload is held back from disk until it is complete.
    pub closed spec fn coalesce(&self) -> bool {
        self.coalesce
    }

    /// Whether the upload is written to disk at all.
    pub closed spec fn to_disk(&self) -> bool {
        self.to_disk
    }

    pub closed spec fn wf(&self) -> bool {
        &&& self.observed_len == self.seen@.len()
        &&& self.sample@ == sample_of(self.seen@)
        &&& self.use_cache ==> self.data@ == self.seen@ && self.data@.len() <= self.provided_len
        &&& self.coalesce ==> self.use_cache
        &&& self.to_disk ==> self.sent@ + (if self.coalesce {
            self.data@
        } else {
            Seq::empty()
        }) == self.seen@
        &&& !self.to_disk ==> self.sent@ == Seq::<u8>::empty()
    }

    /// Bytes received so far.
    pub fn observed_len(&self) -> (r: u64)
        requires
            self.wf(),
        ensures
            r == self.seen().len(),
    {
        self.observed_len
    }

    /// Takes in the next chunk of the body. Returns the bytes to hand to the
    /// disk writer now, if any.
    ///
    /// When more bytes arrive than the client announced, the upload stops
    /// heading for the cache; bytes held back for stripping go to disk then.
    pub fn feed(&mut self, chunk: &[u8]) -> (r: Option<Vec<u8>>)
        requires
            old(self).wf(),
            old(self).seen().len() + chunk@.len() <= u64::MAX,
        ensures
            final(self).wf(),
            final(self).seen() == old(self).seen() + chunk@,
            final(self).sent() == old(self).sent() + match r {
                Some(v) => v@,
                None => Seq::empty(),
            },
            final(self).provided_len() == old(self).provided_len(),
            final(self).to_disk() == old(self).to_disk(),
            final(self).use_cache() == (old(self).use_cache() && final(self).seen().len()
                <= old(self).provided_len()),
            final(self).coalesce() == (old(self).coalesce() && final(self).use_cache()),
            r is Some ==> old(self).to_disk(),
    {
        let ghost seen0 = self.seen@;
        // the deletion hash covers the first bytes only
        let have = self.sample.len();
        if have < SAMPLE_WANTED_BYTES {
            let wanted = SAMPLE_WANTED_BYTES - have;
            let taking = if chunk.len() < wanted {
                chunk.len()
            } else {
                wanted
            };
            let mut part: Vec<u8> = Vec::new();
            let mut i: usize = 0;
            while i < taking
                invariant
                    taking <= chunk@.len(),
                    i <= taking,
                    part@ == chunk@.take(i as int),
                decreases taking - i,
            {
                part.push(chunk[i]);
                i = i + 1;
                assert(part@ =~= chunk@.take(i as int));
            }
            append_bytes(&mut self.sample, part.as_slice());
            proof {
                assert(seen0.len() < SAMPLE_WANTED_BYTES);
                assert(old(self).sample@ == seen0);
                let all = seen0 + chunk@;
                if all.len() <= SAMPLE_WANTED_BYTES {
                    assert(chunk@.take(taking as int) =~= chunk@);
                    assert(self.sample@ =~= sample_of(all));
                } else {
                    assert(self.sample@ =~= all.take(SAMPLE_WANTED_BYTES as int));
                }
            }
        } else {
            proof {
                let all = seen0 + chunk@;
                assert(sample_of(all) =~= sample_of(seen0));
            }
        }
        self.observed_len = self.observed_len + chunk.len() as u64;
        self.seen = Ghost(seen0 + chunk@);
        let mut out: Option<Vec<u8>> = None;
        if self.use_cache {
            if self.data.len() as u64 + chunk.len() as u64 > self.provided_len {
                // the client sent more than it announced: stop caching
                if self.coalesce {
                    if self.to_disk {
                        let mut held = Vec::new();
                        std::mem::swap(&mut held, &mut self.data);
                        append_bytes(&mut held, chunk);
                        out = Some(held);
                    }
                } else if self.to_disk {
                    let mut v = Vec::new();
                    append_bytes(&mut v, chunk);
                    out = Some(v);
                }
                self.data = Vec::new();
                self.use_cache = false;
                self.coalesce = false;
            } else {
                append_bytes(&mut self.data, chunk);
                if !self.coalesce && self.to_disk {
                    let mut v = Vec::new();
                    append_bytes(&mut v, chunk);
                    out = Some(v);
                }
            }
        } else if self.to_disk {
            let mut v = Vec::new();
            append_bytes(&mut v, chunk);
            out = Some(v);
        }
        match &out {
            Some(v) => {
                self.sent = Ghost(self.sent@ + v@);
            },
            None => {},
        }
        proof {
            if self.to_disk {
                if self.coalesce {
                    assert(self.sent@ + self.data@ =~= self.seen@);
                } else {
                    assert(self.sent@ + Seq::<u8>::empty() =~= self.seen@);
                }
            } else {
                assert(self.sent@ =~= Seq::<u8>::empty());
            }
            assert(old(self).sent() + Seq::<u8>::empty() =~= old(self).sent());
        }
        out
    }
}

/// The storage engine: the cache in front of the disk store, the rules
/// uploads are admitted by, and deletion links.
pub struct Engine {
    /// Count of uploads stored on disk.
    pub upl_count: usize,
    /// Engine configuration.
    pub cfg: EngineConfig,
    /// The key deletion links are signed with, if deletion is enabled.
    pub deletion_hmac: Option<Vec<u8>>,
    /// The in-memory cache that uploads are kept in.
    pub cache: Cache,
    /// The on-disk store of uploads.
    pub disk: Disk,
}

impl Engine {
    /// The cache.
    pub open spec fn cache(&self) -> Cache {
        self.cache
    }

    /// The disk store.
    pub open spec fn disk_spec(&self) -> Disk {
        self.disk
    }

    pub open spec fn wf(&self) -> bool {
        &&& self.cache().wf()
        &&& self.cache().config() == self.cfg.cache
    }

    /// A new engine with an empty cache; `upl_count` uploads are on disk.
    pub fn with_config(cfg: EngineConfig, upl_count: usize) -> (e: Engine)
        ensures
            e.wf(),
            e.cfg == cfg,
            e.upl_count == upl_count,
            e.cache()@.dom().is_empty(),
            e.disk_spec().save_path() == cfg.disk.save_path@,
            match cfg.deletion_secret {
                Some(s) => e.deletion_hmac matches Some(k) && k@ == encode_utf8(s@),
                None => e.deletion_hmac is None,
            },
    {
        let deletion_hmac = match &cfg.deletion_secret {
            Some(s) => {
                let mut k: Vec<u8> = Vec::new();
                append_bytes(&mut k, s.as_str().as_bytes());
                Some(k)
            },
            None => None,
        };
        let cache = Cache::with_config(cfg.cache);
        let disk = Disk::with_config(DiskConfig { save_path: cfg.disk.save_path.clone() });
        Engine { upl_count, cfg, deletion_hmac, cache, disk }
    }

    /// The disk store.
    pub fn disk(&self) -> (r: &Disk)
        ensures
            r == self.disk_spec(),
    {
        &self.disk
    }

    /// Whether an upload of `length` bytes is kept in the cache.
    pub fn will_use(&self, length: u64) -> (r: bool)
        ensures
            r == (length <= self.cache().config().max_length),
    {
        self.cache.will_use(length)
    }

    /// The admission rules of an upload of `provided_len` bytes, with an
    /// optional temporary `lifetime`: `Ok` with whether it is cached, or the
    /// rejection.
    pub fn admission_check(&self, provided_len: u64, lifetime: Option<u64>) -> (r: Result<bool, ProcessOutcome>)
        requires
            self.wf(),
        ensures
            r == admission(self.cfg, provided_len, lifetime),
    {
        if let Some(l) = self.cfg.max_upload_len {
            if provided_len > l {
                return Err(ProcessOutcome::UploadTooLarge);
            }
        }
        let use_cache = self.cache.will_use(provided_len);
        if lifetime.is_some() && !use_cache {
            return Err(ProcessOutcome::TemporaryUploadTooLarge);
        }
        if let Some(lt) = lifetime {
            if lt > self.cfg.max_temp_lifetime {
                return Err(ProcessOutcome::TemporaryUploadLifetimeTooLong);
            }
        }
        Ok(use_cache)
    }

    /// A fresh candidate saved name: six random letters and digits, then `.`
    /// and `ext` if given.
    pub fn new_candidate(ext: &Option<String>) -> (r: String)
        ensures
            exists|stem: Seq<char>|
                stem.len() == 6 && (forall|i: int| 0 <= i < 6 ==> is_alnum(#[trigger] stem[i]))
                    && r@ == name_with_ext(
                    stem,
                    match ext {
                        Some(e) => Some(e@),
                        None => None,
                    },
                ),
    {
        let stem = random_alphanumeric(6);
        let ghost st = stem@;
        let r = candidate_name(stem, ext);
        assert(st.len() == 6 && (forall|i: int| 0 <= i < 6 ==> is_alnum(#[trigger] st[i])));
        r
    }

    /// Whether an upload is stored under `saved_name`: in the cache at `now`,
    /// or, as `on_disk` tells, on disk. An expired cache entry under it is
    /// dropped. New saved names are drawn until this is false.
    pub fn has(&mut self, saved_name: &str, on_disk: bool, now: u64) -> (r: bool)
        requires
            old(self).wf(),
        ensures
            final(self).wf(),
            final(self).cfg == old(self).cfg,
            final(self).upl_count == old(self).upl_count,
            final(self).deletion_hmac == old(self).deletion_hmac,
            final(self).disk_spec() == old(self).disk_spec(),
            final(self).cache()@ == live_after(old(self).cache()@, saved_name@, now),
            r == (on_disk || is_live(old(self).cache()@, saved_name@, now)),
    {
        let in_cache = self.cache.has(saved_name, now);
        in_cache || on_disk
    }

    /// Starts receiving an upload stored under `saved_name`, announced as
    /// `provided_len` bytes; it goes to disk unless it is temporary (has a
    /// `lifetime`).
    pub fn start_upload(
        &self,
        saved_name: &str,
        provided_len: u64,
        use_cache: bool,
        lifetime: Option<u64>,
        keep_exif: bool,
    ) -> (r: Upload)
        ensures
            r.wf(),
            r.seen() == Seq::<u8>::empty(),
            r.sent() == Seq::<u8>::empty(),
            r.provided_len() == provided_len,
            r.use_cache() == use_cache,
            r.to_disk() == lifetime is None,
            r.coalesce() == strip_eligible(
                saved_name@,
                use_cache,
                keep_exif,
                provided_len,
                self.cfg.max_strip_len,
            ),
    {
        let is_image = match extension(saved_name) {
            Some(e) => image_ext(e.as_str()),
            None => false,
        };
        let coalesce = use_cache && is_image && !keep_exif && provided_len
            <= self.cfg.max_strip_len;
        let r = Upload {
            provided_len,
            use_cache,
            coalesce,
            to_disk: lifetime.is_none(),
            data: Vec::new(),
            sample: Vec::new(),
            observed_len: 0,
            seen: Ghost(Seq::empty()),
            sent: Ghost(Seq::empty()),
        };
        assert(r.sample@ =~= sample_of(Seq::<u8>::empty()));
        assert(Seq::<u8>::empty() + Seq::<u8>::empty() =~= Seq::<u8>::empty());
        r
    }

    /// Ends an upload whose body has been received in full. Returns the bytes
    /// to hand to the disk writer in one piece (when they were held back for
    /// stripping), the sample for the deletion hash, and the length received.
    /// An upload still headed for the cache is added to it: with its own
    /// lifetime, not renewed on use, when temporary; with the default lifetime
    /// otherwise.
    pub fn finish_upload(
        &mut self,
        saved_name: &str,
        up: Upload,
        lifetime: Option<u64>,
        now: u64,
    ) -> (r: (Option<Vec<u8>>, Vec<u8>, u64))
        requires
            old(self).wf(),
            up.wf(),
        ensures
            final(self).wf(),
            final(self).cfg == old(self).cfg,
            final(self).upl_count == old(self).upl_count,
            final(self).deletion_hmac == old(self).deletion_hmac,
            final(self).disk_spec() == old(self).disk_spec(),
            r.1@ == sample_of(up.seen()),
            r.2 == up.seen().len(),
            // what the disk writer gets in all is what was received, stripped
            // when it was held back
            up.to_disk() && up.coalesce() ==> up.sent() == Seq::<u8>::empty() && (r.0 matches Some(
                b,
            ) && b@ == stripped_or(up.seen())),
            up.to_disk() && !up.coalesce() ==> up.sent() == up.seen() && r.0 is None,
            !up.to_disk() ==> r.0 is None,
            !up.use_cache() ==> final(self).cache()@ == old(self).cache()@,
            up.use_cache() ==> admitted(
                old(self).cache()@,
                old(self).cache().length(),
                old(self).cfg.cache.mem_capacity as nat,
                saved_name@,
                EntryView {
                    value: if up.coalesce() {
                        stripped_or(up.seen())
                    } else {
                        up.seen()
                    },
                    last_used: now,
                    update_used: lifetime is None,
                    lifetime: match lifetime {
                        Some(lt) => lt,
                        None => old(self).cfg.cache.upload_lifetime,
                    },
                },
                final(self).cache()@,
                final(self).cache().length(),
            ),
    {
        let Upload { use_cache, coalesce, to_disk, data, sample, observed_len, .. } = up;
        let mut blob: Option<Vec<u8>> = None;
        let payload = if coalesce {
            let stripped = if riff_webp(&data) {
                data
            } else {
                match strip_exif(&data) {
                    Some(s) => s,
                    None => data,
                }
            };
            if to_disk {
                let mut copy = Vec::new();
                append_bytes(&mut copy, stripped.as_slice());
                blob = Some(copy);
            }
            proof {
                assert(up.sent@ + up.data@ == up.seen@ ==> up.sent@ =~= Seq::<u8>::empty());
            }
            stripped
        } else {
            proof {
                if to_disk {
                    assert(up.sent@ + Seq::<u8>::empty() =~= up.sent@);
                }
            }
            data
        };
        if use_cache {
            match lifetime {
                Some(lt) => {
                    self.cache.add_with_lifetime(saved_name, payload, lt, false, now);
                },
                None => {
                    self.cache.add(saved_name, payload, now);
                },
            }
        }
        (blob, sample, observed_len)
    }

    /// Completes the processing of an upload stored as `saved_name` whose
    /// `len` bytes began with `sample`: its URL, and its deletion URL when
    /// deletion is enabled. The upload count goes up by one (it stops at the
    /// largest `usize`).
    pub fn complete(&mut self, saved_name: &str, len: u64, sample: &[u8]) -> (r: ProcessOutcome)
        ensures
            final(self).cfg == old(self).cfg,
            final(self).deletion_hmac == old(self).deletion_hmac,
            final(self).cache() == old(self).cache(),
            final(self).disk_spec() == old(self).disk_spec(),
            final(self).upl_count == if old(self).upl_count < usize::MAX {
                old(self).upl_count + 1
            } else {
                old(self).upl_count as int
            },
            r matches ProcessOutcome::Success { url, deletion_url } && url@ == old(
                self,
            ).cfg.base_url@ + "/p/"@ + saved_name@ && match old(self).deletion_hmac {
                Some(k) => deletion_url matches Some(d) && d@ == deletion_url_of(
                    old(self).cfg.base_url@,
                    saved_name@,
                    xxh3_128_of(hash_input(len, sample@)),
                    k@,
                ),
                None => deletion_url is None,
            },
    {
        let deletion = match &self.deletion_hmac {
            Some(k) => {
                let hash = calculate_hash(len, sample);
                Some(deletion_url(self.cfg.base_url.as_str(), saved_name, hash, k.as_slice()))
            },
            None => None,
        };
        let mut url = String::from_str(self.cfg.base_url.as_str());
        url.append("/p/");
        url.append(saved_name);
        if self.upl_count < usize::MAX {
            self.upl_count = self.upl_count + 1;
        }
        ProcessOutcome::Success { url, deletion_url: deletion }
    }

    /// Notes that an upload was deleted from disk (the count stops at zero).
    pub fn note_deleted(&mut self)
        ensures
            final(self).cfg == old(self).cfg,
            final(self).deletion_hmac == old(self).deletion_hmac,
            final(self).cache() == old(self).cache(),
            final(self).disk_spec() == old(self).disk_spec(),
            final(self).upl_count == if old(self).upl_count > 0 {
                old(self).upl_count - 1
            } else {
                0int
            },
    {
        if self.upl_count > 0 {
            self.upl_count = self.upl_count - 1;
        }
    }

    /// Fetches an upload from the cache at `now`, cut down to the requested
    /// range. `None` when the cache does not hold it.
    pub fn get_cached(
        &mut self,
        saved_name: &str,
        range: Option<&str>,
        now: u64,
    ) -> (r: Option<GetOutcome>)
        requires
            old(self).wf(),
        ensures
            final(self).wf(),
            final(self).cfg == old(self).cfg,
            final(self).upl_count == old(self).upl_count,
            final(self).deletion_hmac == old(self).deletion_hmac,
            final(self).disk_spec() == old(self).disk_spec(),
            final(self).cache()@ == touched_after(old(self).cache()@, saved_name@, now),
            r is Some <==> is_live(old(self).cache()@, saved_name@, now),
            r matches Some(o) ==> serves(
                o,
                old(self).cache()@[saved_name@].value,
                first_of(range, old(self).cache()@[saved_name@].value.len() as u64),
            ),
    {
        match self.cache.get(saved_name, now) {
            Some(data) => {
                let full_len = data.len() as u64;
                let first = first_range(range, full_len);
                Some(serve_bytes(data, first))
            },
            None => None,
        }
    }

    /// Puts an upload read back from disk into the cache at `now` and serves
    /// it, cut down to the requested range.
    pub fn recache(
        &mut self,
        saved_name: &str,
        data: Vec<u8>,
        range: Option<&str>,
        now: u64,
    ) -> (r: GetOutcome)
        requires
            old(self).wf(),
        ensures
            final(self).wf(),
            final(self).cfg == old(self).cfg,
            final(self).upl_count == old(self).upl_count,
            final(self).deletion_hmac == old(self).deletion_hmac,
            final(self).disk_spec() == old(self).disk_spec(),
            admitted(
                old(self).cache()@,
                old(self).cache().length(),
                old(self).cfg.cache.mem_capacity as nat,
                saved_name@,
                EntryView {
                    value: data@,
                    last_used: now,
                    update_used: true,
                    lifetime: old(self).cfg.cache.upload_lifetime,
                },
                final(self).cache()@,
                final(self).cache().length(),
            ),
            serves(r, data@, first_of(range, data@.len() as u64)),
    {
        let mut copy = Vec::new();
        append_bytes(&mut copy, data.as_slice());
        self.cache.add(saved_name, copy, now);
        let full_len = data.len() as u64;
        let first = first_range(range, full_len);
        serve_bytes(data, first)
    }

    /// The hash of an upload held in the cache at `now`, taken over its length
    /// and leading bytes; `None` when the cache does not hold it.
    pub fn get_hash_cached(&mut self, saved_name: &str, now: u64) -> (r: Option<u128>)
        requires
            old(self).wf(),
        ensures
            final(self).wf(),
            final(self).cfg == old(self).cfg,
            final(self).upl_count == old(self).upl_count,
            final(self).deletion_hmac == old(self).deletion_hmac,
            final(self).disk_spec() == old(self).disk_spec(),
            final(self).cache()@ == touched_after(old(self).cache()@, saved_name@, now),
            r is Some <==> is_live(old(self).cache()@, saved_name@, now),
            r matches Some(h) ==> h == xxh3_128_of(
                hash_input(
                    old(self).cache()@[saved_name@].value.len() as u64,
                    sample_of(old(self).cache()@[saved_name@].value),
                ),
            ),
    {
        match self.cache.get(saved_name, now) {
            Some(data) => {
                let n = data.len();
                let taking = if n < SAMPLE_WANTED_BYTES {
                    n
                } else {
                    SAMPLE_WANTED_BYTES
                };
                let mut sample: Vec<u8> = Vec::new();
                let mut i: usize = 0;
                while i < taking
                    invariant
                        taking <= data@.len(),
                        i <= taking,
                        sample@ == data@.take(i as int),
                    decreases taking - i,
                {
                    sample.push(data[i]);
                    i = i + 1;
                    assert(sample@ =~= data@.take(i as int));
                }
                assert(sample@ =~= sample_of(data@));
                Some(calculate_hash(n as u64, sample.as_slice()))
            },
            None => None,
        }
    }

    /// Drops an upload from the cache.
    pub fn remove_cached(&mut self, saved_name: &str) -> (r: bool)
        requires
            old(self).wf(),
        ensures
            final(self).wf(),
            final(self).cfg == old(self).cfg,
            final(self).upl_count == old(self).upl_count,
            final(self).deletion_hmac == old(self).deletion_hmac,
            final(self).disk_spec() == old(self).disk_spec(),
            final(self).cache()@ == old(self).cache()@.remove(saved_name@),
            r == old(self).cache()@.contains_key(saved_name@),
    {
        self.cache.remove(saved_name).is_some()
    }

    /// Drops every cache entry that has expired at `now`.
    pub fn scan_cache(&mut self, now: u64)
        requires
            old(self).wf(),
        ensures
            final(self).wf(),
            final(self).cfg == old(self).cfg,
            final(self).upl_count == old(self).upl_count,
            final(self).deletion_hmac == old(self).deletion_hmac,
            final(self).disk_spec() == old(self).disk_spec(),
            final(self).cache()@ == crate::cache::unexpired(old(self).cache()@, now),
    {
        self.cache.scan(now);
    }
}

/// A saved name made of `stem`, then `.` and `ext` if given.
pub fn candidate_name(stem: String, ext: &Option<String>) -> (r: String)
    ensures
        r@ == name_with_ext(
            stem@,
            match ext {
                Some(e) => Some(e@),
                None => None,
            },
        ),
{
    let mut name = stem;
    match ext {
        Some(e) => {
            proof {
                reveal_strlit(".");
            }
            name.append(".");
            name.append(e.as_str());
        },
        None => {},
    }
    name
}

/// `o` is the response for the body `b` and the first requested range
/// `first`: the resolved range and the bytes in it, or a refusal when the
/// range cannot be satisfied.
pub open spec fn serves(o: GetOutcome, b: Seq<u8>, first: Option<(Option<u64>, Option<u64>)>) -> bool {
    match resolved(first, b.len() as u64) {
        Some((s, e)) => o matches GetOutcome::Success(res) && res.full_len == b.len() && res.range
            == (s, e) && (res.data matches UploadData::Cache(v) && v@ == b.subrange(
            s as int,
            e + 1,
        )),
        None => o is RangeNotSatisfiable,
    }
}

/// Serves the body `data` cut down to the first requested range `first`.
pub fn serve_bytes(data: Vec<u8>, first: Option<(Option<u64>, Option<u64>)>) -> (r: GetOutcome)
    requires
        data@.len() <= u64::MAX,
    ensures
        serves(r, data@, first),
{
    let full_len = data.len() as u64;
    match resolve_bounds(first, full_len) {
        None => GetOutcome::RangeNotSatisfiable,
        Some((start, end)) => {
            let mut part: Vec<u8> = Vec::new();
            let stop: usize = end as usize;
            let n: usize = data.len();
            let mut i: usize = start as usize;
            while i <= stop
                invariant
                    stop == end,
                    n == data@.len(),
                    start <= end < data@.len(),
                    start <= i <= end + 1,
                    part@ == data@.subrange(start as int, i as int),
                decreases end + 1 - i,
            {
                part.push(data[i]);
                i = i + 1;
                assert(part@ =~= data@.subrange(start as int, i as int));
            }
            GetOutcome::Success(
                UploadResponse { full_len, range: (start, end), data: UploadData::Cache(part) },
            )
        },
    }
}

/// Serves the range of a file of `full_len` bytes that is too big for the
/// cache, to be streamed from disk.
pub fn serve_disk(full_len: u64, range: Option<&str>) -> (r: GetOutcome)
    ensures
        match resolved(first_of(range, full_len), full_len) {
            Some((s, e)) => r matches GetOutcome::Success(res) && res.full_len == full_len
                && res.range == (s, e) && res.data is Disk,
            None => r is RangeNotSatisfiable,
        },
        r matches GetOutcome::Success(res) ==> res.range.0 <= res.range.1 < full_len,
{
    match crate::range::resolve_range(range, full_len) {
        None => GetOutcome::RangeNotSatisfiable,
        Some((start, end)) => GetOutcome::Success(
            UploadResponse { full_len, range: (start, end), data: UploadData::Disk },
        ),
    }
}

/// Round trip: an upload admitted to the cache at `now` with a nonzero
/// lifetime is live at `now`, and a read then without a range serves all of its
/// bytes.
pub proof fn lemma_saved_upload_served_whole(
    old: Map<Seq<char>, EntryView>,
    old_len: nat,
    cap: nat,
    k: Seq<char>,
    e: EntryView,
    new: Map<Seq<char>, EntryView>,
    new_len: nat,
    now: u64,
    o: GetOutcome,
)
    requires
        admitted(old, old_len, cap, k, e, new, new_len),
        e.last_used == now,
        e.lifetime > 0,
        0 < e.value.len() <= u64::MAX,
        serves(o, new[k].value, None),
    ensures
        is_live(new, k, now),
        o matches GetOutcome::Success(res) && res.full_len == e.value.len() && res.range == (
            0u64,
            (e.value.len() - 1) as u64,
        ) && (res.data matches UploadData::Cache(v) && v@ == e.value),
{
    assert(e.value.subrange(0, e.value.len() as int) =~= e.value);
}

} // verus!
