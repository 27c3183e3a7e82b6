use hkdf::Hkdf;
use hmac::{Hmac, Mac};
use sha2::Sha256;
use vstd::prelude::*;
use vstd::string::*;

verus! {

/// Number of bytes of a tracing key.
pub const TK_LEN: usize = 32;

/// Number of bytes of a daily tracing key and of a rolling proximity identifier.
pub const DTK_LEN: usize = 16;

/// Largest time interval number of a day.
pub const MAX_TIN: u8 = 143;

/// What HKDF-SHA256, extracted with no salt from `ikm` and expanded with
/// `info`, yields as its first 16 bytes.
pub uninterp spec fn hkdf_sha256_16(ikm: Seq<u8>, info: Seq<u8>) -> Seq<u8>;

/// What HMAC-SHA256 under `key` yields on `msg`.
pub uninterp spec fn hmac_sha256(key: Seq<u8>, msg: Seq<u8>) -> Seq<u8>;

/// Relies on hkdf::Hkdf::new and Hkdf::expand: with no salt, it fills a
/// 16-byte output, a length well under the 255 hash lengths it refuses.
#[verifier::external_body]
fn hkdf_expand_16(ikm: &[u8], info: &[u8]) -> (r: Vec<u8>)
    ensures
        r@ == hkdf_sha256_16(ikm@, info@),
        r@.len() == 16,
{
    let h = Hkdf::<Sha256>::new(None, ikm);
    let mut out = [0u8; 16];
    h.expand(info, &mut out).unwrap();
    out.to_vec()
}

/// Relies on hmac::Hmac::<Sha256>: it takes a key of any length and gives
/// a 32-byte code.
#[verifier::external_body]
fn hmac_sha256_code(key: &[u8], msg: &[u8]) -> (r: Vec<u8>)
    ensures
        r@ == hmac_sha256(key@, msg@),
        r@.len() == 32,
{
    let mut mac = Hmac::<Sha256>::new_varkey(key).unwrap();
    mac.input(msg);
    mac.result().code().to_vec()
}

/// What URL-safe, unpadded base64 decoding makes of some text: the bytes,
/// or `None` when the text is not such an encoding.
pub uninterp spec fn b64url_decode(s: Seq<char>) -> Option<Seq<u8>>;

/// The URL-safe, unpadded base64 encoding of some bytes.
pub uninterp spec fn b64url_encode(b: Seq<u8>) -> Seq<char>;

/// Relies on base64::decode_config with URL_SAFE_NO_PAD: the decoded bytes,
/// or an error on a character outside the alphabet or an impossible length.
#[verifier::external_body]
fn decode_b64url(s: &str) -> (r: Option<Vec<u8>>)
    ensures
        r matches Some(v) ==> b64url_decode(s@) == Some(v@),
        r is None ==> b64url_decode(s@) is None,
{
    base64::decode_config(s, base64::URL_SAFE_NO_PAD).ok()
}

/// Relies on base64::encode_config with URL_SAFE_NO_PAD: four characters
/// for every three bytes, the last group cut short rather than padded.
#[verifier::external_body]
fn encode_b64url(b: &[u8]) -> (r: String)
    requires
        b@.len() <= 64,
    ensures
        r@ == b64url_encode(b@),
        b@.len() == 16 ==> r@.len() == 22,
        b@.len() == 32 ==> r@.len() == 43,
{
    base64::encode_config(b, base64::URL_SAFE_NO_PAD)
}

/// The four bytes of `n`, least significant first.
pub open spec fn le_u32(n: u32) -> Seq<u8> {
    seq![(n % 256) as u8, ((n / 256) % 256) as u8, ((n / 65536) % 256) as u8, (n / 16777216) as u8]
}

/// Appends the four little-endian bytes of `n`.
pub fn push_le_u32(v: &mut Vec<u8>, n: u32)
    ensures
        final(v)@ == old(v)@ + le_u32(n),
{
    v.push((n % 256) as u8);
    v.push(((n / 256) % 256) as u8);
    v.push(((n / 65536) % 256) as u8);
    v.push((n / 16777216) as u8);
    assert(final(v)@ =~= old(v)@ + le_u32(n));
}

/// The ASCII bytes of "CT-DTK".
pub open spec fn dtk_label() -> Seq<u8> {
    seq![0x43u8, 0x54u8, 0x2du8, 0x44u8, 0x54u8, 0x4bu8]
}

/// The ASCII bytes of "CT-RPI".
pub open spec fn rpi_label() -> Seq<u8> {
    seq![0x43u8, 0x54u8, 0x2du8, 0x52u8, 0x50u8, 0x49u8]
}

/// The daily tracing key of a tracing key for a day.
pub open spec fn dtk_of(tk: Seq<u8>, day: u32) -> Seq<u8> {
    hkdf_sha256_16(tk, dtk_label() + le_u32(day))
}

/// The identifier of a daily tracing key for a time interval number.
pub open spec fn rpi_of(dtk: Seq<u8>, tin: u8) -> Seq<u8> {
    hmac_sha256(dtk, rpi_label().push(tin)).take(16)
}

/// Copies a slice into a fresh vector, byte for byte.
fn copy_bytes(b: &[u8]) -> (r: Vec<u8>)
    ensures
        r@ == b@,
{
    let mut out: Vec<u8> = Vec::new();
    let mut i: usize = 0;
    while i < b.len()
        invariant
            i <= b@.len(),
            out@ == b@.subrange(0, i as int),
        decreases b@.len() - i,
    {
        out.push(b[i]);
        i = i + 1;
        assert(out@ == b@.subrange(0, i as int));
    }
    assert(b@.subrange(0, b@.len() as int) == b@);
    out
}

/// True when two byte sequences are equal, compared byte by byte.
pub fn bytes_equal(a: &[u8], b: &[u8]) -> (r: bool)
    ensures
        r == (a@ == b@),
{
    if a.len() != b.len() {
        return false;
    }
    let mut i: usize = 0;
    while i < a.len()
        invariant
            a@.len() == b@.len(),
            i <= a@.len(),
            forall|j: int| 0 <= j < i ==> a@[j] == b@[j],
        decreases a@.len() - i,
    {
        if a[i] != b[i] {
            return false;
        }
        i = i + 1;
    }
    assert(a@ =~= b@);
    true
}

/// A random per-identity secret of exactly 32 bytes.
#[derive(Debug)]
pub struct TracingKey {
    bytes: Vec<u8>,
}

/// Returned when bytes do not form a tracing key.
#[derive(Debug, PartialEq, Eq)]
pub struct InvalidTracingKey;

impl View for TracingKey {
    type V = Seq<u8>;

    closed spec fn view(&self) -> Seq<u8> {
        self.bytes@
    }
}

impl TracingKey {
    pub open spec fn wf(&self) -> bool {
        self@.len() == TK_LEN
    }

    /// Creates a tracing key from raw bytes; fails unless there are exactly 32.
    pub fn from_bytes(b: &[u8]) -> (r: Result<TracingKey, InvalidTracingKey>)
        ensures
            r is Ok <==> b@.len() == TK_LEN,
            r matches Ok(k) ==> k@ == b@ && k.wf(),
    {
        if b.len() != TK_LEN {
            return Err(InvalidTracingKey);
        }
        Ok(TracingKey { bytes: copy_bytes(b) })
    }

    /// Creates a tracing key from 32 bytes drawn from a secure random source.
    pub fn unique(random: &[u8]) -> (r: Result<TracingKey, InvalidTracingKey>)
        ensures
            r is Ok <==> random@.len() == TK_LEN,
            r matches Ok(k) ==> k@ == random@,
    {
        TracingKey::from_bytes(random)
    }

    /// Reads the key from its URL-safe, unpadded base64 text; fails on a
    /// character outside the alphabet, a text of another length, or one that is not 32 bytes long.
    pub fn from_text(s: &str) -> (r: Result<TracingKey, InvalidTracingKey>)
        ensures
            r is Ok <==> s@.len() == 43 && (b64url_decode(s@) matches Some(b) && b.len() == TK_LEN),
            r matches Ok(k) ==> b64url_decode(s@) == Some(k@),
    {
        if s.unicode_len() != 43 {
            return Err(InvalidTracingKey);
        }
        match decode_b64url(s) {
            Some(v) => {
                if v.len() != TK_LEN {
                    return Err(InvalidTracingKey);
                }
                Ok(TracingKey { bytes: v })
            },
            None => Err(InvalidTracingKey),
        }
    }

    /// The URL-safe, unpadded base64 text of the key, 43 characters long.
    pub fn to_text(&self) -> (r: String)
        requires
            self.wf(),
        ensures
            r@ == b64url_encode(self@),
            r@.len() == 43,
    {
        encode_b64url(self.bytes.as_slice())
    }

    /// Returns the bytes behind the tracing key.
    pub fn as_bytes(&self) -> (r: &[u8])
        ensures
            r@ == self@,
    {
        self.bytes.as_slice()
    }
}

/// A per-day key of exactly 16 bytes.
#[derive(Debug)]
pub struct DailyTracingKey {
    bytes: Vec<u8>,
}

/// Returned when bytes do not form a daily tracing key.
#[derive(Debug, PartialEq, Eq)]
pub struct InvalidDailyTracingKey;

impl View for DailyTracingKey {
    type V = Seq<u8>;

    closed spec fn view(&self) -> Seq<u8> {
        self.bytes@
    }
}

impl DailyTracingKey {
    pub open spec fn wf(&self) -> bool {
        self@.len() == DTK_LEN
    }

    /// Creates a daily tracing key from raw bytes; fails unless there are exactly 16.
    pub fn from_bytes(b: &[u8]) -> (r: Result<DailyTracingKey, InvalidDailyTracingKey>)
        ensures
            r is Ok <==> b@.len() == DTK_LEN,
            r matches Ok(k) ==> k@ == b@ && k.wf(),
    {
        if b.len() != DTK_LEN {
            return Err(InvalidDailyTracingKey);
        }
        Ok(DailyTracingKey { bytes: copy_bytes(b) })
    }

    /// Reads the key from its URL-safe, unpadded base64 text; fails on a
    /// character outside the alphabet, a text of another length, or one that is not 16 bytes long.
    pub fn from_text(s: &str) -> (r: Result<DailyTracingKey, InvalidDailyTracingKey>)
        ensures
            r is Ok <==> s@.len() == 22 && (b64url_decode(s@) matches Some(b) && b.len() == DTK_LEN),
            r matches Ok(k) ==> b64url_decode(s@) == Some(k@),
    {
        if s.unicode_len() != 22 {
            return Err(InvalidDailyTracingKey);
        }
        match decode_b64url(s) {
            Some(v) => {
                if v.len() != DTK_LEN {
                    return Err(InvalidDailyTracingKey);
                }
                Ok(DailyTracingKey { bytes: v })
            },
            None => Err(InvalidDailyTracingKey),
        }
    }

    /// The URL-safe, unpadded base64 text of the key, 22 characters long.
    pub fn to_text(&self) -> (r: String)
        requires
            self.wf(),
        ensures
            r@ == b64url_encode(self@),
            r@.len() == 22,
    {
        encode_b64url(self.bytes.as_slice())
    }

    /// Returns the bytes behind the daily tracing key.
    pub fn as_bytes(&self) -> (r: &[u8])
        ensures
            r@ == self@,
    {
        self.bytes.as_slice()
    }

    /// Returns the daily tracing key of `tk` for a day number.
    pub fn for_day(tk: &TracingKey, day: u32) -> (r: DailyTracingKey)
        ensures
            r@ == dtk_of(tk@, day),
            r.wf(),
    {
        let mut info: Vec<u8> = vec![0x43, 0x54, 0x2d, 0x44, 0x54, 0x4b];
        assert(info@ =~= dtk_label());
        push_le_u32(&mut info, day);
        let out = hkdf_expand_16(tk.as_bytes(), info.as_slice());
        DailyTracingKey { bytes: out }
    }

    /// Returns the identifier for a time interval number, or `None` when the
    /// number lies past the last interval of the day.
    pub fn get_rpi_for_tin(&self, tin: u8) -> (r: Option<Rpi>)
        ensures
            r is Some <==> tin <= MAX_TIN,
            r matches Some(p) ==> p@ == rpi_of(self@, tin) && p.wf(),
    {
        if tin > MAX_TIN {
            return None;
        }
        let mut msg: Vec<u8> = vec![0x43, 0x54, 0x2d, 0x52, 0x50, 0x49];
        msg.push(tin);
        assert(msg@ =~= rpi_label().push(tin));
        let code = hmac_sha256_code(self.bytes.as_slice(), msg.as_slice());
        let mut out: Vec<u8> = Vec::new();
        let mut i: usize = 0;
        while i < DTK_LEN
            invariant
                i <= DTK_LEN,
                code@.len() == 32,
                out@ == code@.take(i as int),
            decreases DTK_LEN - i,
        {
            out.push(code[i]);
            i = i + 1;
            assert(out@ =~= code@.take(i as int));
        }
        Some(Rpi { bytes: out })
    }

    /// All identifiers of the day, in order of their time interval number.
    pub fn iter_rpis(&self) -> (r: Vec<Rpi>)
        ensures
            r@.len() == MAX_TIN + 1,
            forall|t: int| 0 <= t <= MAX_TIN ==> #[trigger] r@[t]@ == rpi_of(self@, t as u8),
    {
        let mut out: Vec<Rpi> = Vec::new();
        let mut tin: u16 = 0;
        while tin <= MAX_TIN as u16
            invariant
                tin <= MAX_TIN + 1,
                out@.len() == tin,
                forall|t: int| 0 <= t < tin ==> #[trigger] out@[t]@ == rpi_of(self@, t as u8),
            decreases MAX_TIN + 1 - tin,
        {
            out.push(self.get_rpi_for_tin(tin as u8).unwrap());
            tin = tin + 1;
        }
        out
    }

    /// A copy of this key with the same bytes.
    pub fn duplicate(&self) -> (r: DailyTracingKey)
        ensures
            r@ == self@,
    {
        DailyTracingKey { bytes: copy_bytes(self.bytes.as_slice()) }
    }
}

/// A rolling proximity identifier of exactly 16 bytes.
#[derive(Debug)]
pub struct Rpi {
    bytes: Vec<u8>,
}

/// Returned when bytes do not form a rolling proximity identifier.
#[derive(Debug, PartialEq, Eq)]
pub struct InvalidRpi;

impl View for Rpi {
    type V = Seq<u8>;

    closed spec fn view(&self) -> Seq<u8> {
        self.bytes@
    }
}

impl Rpi {
    pub open spec fn wf(&self) -> bool {
        self@.len() == DTK_LEN
    }

    /// Creates an identifier from raw bytes; fails unless there are exactly 16.
    pub fn from_bytes(b: &[u8]) -> (r: Result<Rpi, InvalidRpi>)
        ensures
            r is Ok <==> b@.len() == DTK_LEN,
            r matches Ok(k) ==> k@ == b@ && k.wf(),
    {
        if b.len() != DTK_LEN {
            return Err(InvalidRpi);
        }
        Ok(Rpi { bytes: copy_bytes(b) })
    }

    /// Reads the key from its URL-safe, unpadded base64 text; fails on a
    /// character outside the alphabet, a text of another length, or one that is not 16 bytes long.
    pub fn from_text(s: &str) -> (r: Result<Rpi, InvalidRpi>)
        ensures
            r is Ok <==> s@.len() == 22 && (b64url_decode(s@) matches Some(b) && b.len() == DTK_LEN),
            r matches Ok(k) ==> b64url_decode(s@) == Some(k@),
    {
        if s.unicode_len() != 22 {
            return Err(InvalidRpi);
        }
        match decode_b64url(s) {
            Some(v) => {
                if v.len() != DTK_LEN {
                    return Err(InvalidRpi);
                }
                Ok(Rpi { bytes: v })
            },
            None => Err(InvalidRpi),
        }
    }

    /// The URL-safe, unpadded base64 text of the key, 22 characters long.
    pub fn to_text(&self) -> (r: String)
        requires
            self.wf(),
        ensures
            r@ == b64url_encode(self@),
            r@.len() == 22,
    {
        encode_b64url(self.bytes.as_slice())
    }

    /// Returns the bytes behind the identifier.
    pub fn as_bytes(&self) -> (r: &[u8])
        ensures
            r@ == self@,
    {
        self.bytes.as_slice()
    }
}

/// Distinct day numbers give distinct four-byte encodings.
pub proof fn lemma_le_u32_injective(a: u32, b: u32)
    requires
        le_u32(a) == le_u32(b),
    ensures
        a == b,
{
    let (x, y) = (le_u32(a), le_u32(b));
    assert(x[0] == y[0] && x[1] == y[1] && x[2] == y[2] && x[3] == y[3]);
    assert(a % 256 == b % 256);
    assert((a / 256) % 256 == (b / 256) % 256);
    assert((a / 65536) % 256 == (b / 65536) % 256);
    assert(a / 16777216 == b / 16777216);
    assert(a == b) by (bit_vector)
        requires
            a % 256 == b % 256,
            (a / 256) % 256 == (b / 256) % 256,
            (a / 65536) % 256 == (b / 65536) % 256,
            a / 16777216 == b / 16777216,
    ;
}

/// Daily tracing keys of distinct days are derived under distinct HKDF
/// info strings, so the same tracing key gives unrelated outputs for them.
pub proof fn lemma_dtk_info_distinct(d1: u32, d2: u32)
    requires
        d1 != d2,
    ensures
        dtk_label() + le_u32(d1) != dtk_label() + le_u32(d2),
{
    if dtk_label() + le_u32(d1) == dtk_label() + le_u32(d2) {
        assert((dtk_label() + le_u32(d1)).subrange(6, 10) =~= le_u32(d1));
        assert((dtk_label() + le_u32(d2)).subrange(6, 10) =~= le_u32(d2));
        lemma_le_u32_injective(d1, d2);
    }
}

} // verus!
