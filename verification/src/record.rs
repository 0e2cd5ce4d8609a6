//! The two-field text record a key pair is persisted as, and its parser.

use vstd::prelude::*;
use vstd::string::StrSliceExecFns;
use vstd::string::StringExecFns;
use crate::hexcodec::all_hex;
use crate::hexcodec::all_lower_hex;
use crate::hexcodec::hex_chars_of;
use crate::hexcodec::hex_decode;
use crate::hexcodec::hex_encode;
use crate::hexcodec::is_lower_hex_char;
use crate::hexcodec::lemma_decode_of_encode;
use crate::hexcodec::spec_hex_decode;
use crate::keypair::BLSKeyPair;
use crate::keypair::BLS_PUBLIC_KEY_LEN;
use crate::keypair::BLS_SECRET_KEY_LEN;

verus! {

/// The characters of the record that holds the hex forms `pub_hex` and
/// `sec_hex` of a key pair.
pub open spec fn render_chars(pub_hex: Seq<char>, sec_hex: Seq<char>) -> Seq<char> {
    "{\n  \"public\": \""@ + pub_hex + "\",\n  \"secret\": \""@ + sec_hex + "\"\n}"@
}

/// A key pair with both keys already hex-encoded, ready for rendering.
pub struct WrappedBLSKeyPair {
    pub public: String,
    pub secret: String,
}

impl WrappedBLSKeyPair {
    /// Hex-encodes both keys of `key_pair`.
    pub fn new(key_pair: &BLSKeyPair) -> (r: Self)
        ensures
            r.public@ == hex_chars_of(key_pair.public@),
            r.secret@ == hex_chars_of(key_pair.secret@),
    {
        WrappedBLSKeyPair {
            public: hex_encode(key_pair.public.as_slice()),
            secret: hex_encode(key_pair.secret.as_slice()),
        }
    }
}

impl BLSKeyPair {
    /// Renders the pair in its persisted text form: a record of the two
    /// fields `public` and `secret`, each the lower-case hex of the raw key
    /// bytes.
    pub fn to_string(&self) -> (r: String)
        ensures
            r@ == render_chars(hex_chars_of(self.public@), hex_chars_of(self.secret@)),
    {
        let w = WrappedBLSKeyPair::new(self);
        let mut out = String::from_str("{\n  \"public\": \"");
        out.append(w.public.as_str());
        out.append("\",\n  \"secret\": \"");
        out.append(w.secret.as_str());
        out.append("\"\n}");
        proof {
            assert(out@ =~= render_chars(hex_chars_of(self.public@), hex_chars_of(self.secret@)));
        }
        out
    }
}

/// What a record text stands for: the raw public and secret key bytes, if
/// the text is exactly a rendered record whose fields are lower-case hex of
/// the two fixed key lengths; nothing otherwise.
pub open spec fn spec_parse(t: Seq<char>) -> Option<(Seq<u8>, Seq<u8>)> {
    let pre = "{\n  \"public\": \""@;
    let mid = "\",\n  \"secret\": \""@;
    let suf = "\"\n}"@;
    let pl = pre.len() as int;
    let ml = mid.len() as int;
    let sl = suf.len() as int;
    let pn = 2 * BLS_PUBLIC_KEY_LEN as int;
    let sn = 2 * BLS_SECRET_KEY_LEN as int;
    let ph = t.subrange(pl, pl + pn);
    let sh = t.subrange(pl + pn + ml, pl + pn + ml + sn);
    if t.len() == pl + pn + ml + sn + sl && t.subrange(0, pl) == pre && t.subrange(
        pl + pn,
        pl + pn + ml,
    ) == mid && t.subrange(pl + pn + ml + sn, pl + pn + ml + sn + sl) == suf && all_lower_hex(ph)
        && all_lower_hex(sh) {
        Some((spec_hex_decode(ph), spec_hex_decode(sh)))
    } else {
        None
    }
}

/// True exactly when `lit` occurs in `s` at position `pos`.
fn has_at(s: &str, pos: usize, lit: &str) -> (r: bool)
    requires
        pos + lit@.len() <= s@.len(),
    ensures
        r <==> s@.subrange(pos as int, pos as int + lit@.len()) == lit@,
{
    let sn = s.unicode_len();
    let n = lit.unicode_len();
    let mut i: usize = 0;
    while i < n
        invariant
            n == lit@.len(),
            sn == s@.len(),
            pos + n <= sn,
            i <= n,
            forall|j: int| 0 <= j < i ==> s@[pos + j] == lit@[j],
        decreases n - i,
    {
        if s.get_char(pos + i) != lit.get_char(i) {
            proof {
                assert(s@.subrange(pos as int, pos as int + lit@.len())[i as int] != lit@[
                    i as int]);
            }
            return false;
        }
        i = i + 1;
    }
    proof {
        assert(s@.subrange(pos as int, pos as int + lit@.len()) =~= lit@);
    }
    true
}

/// True exactly when the `len` characters of `s` from `start` on are all
/// lower-case hex digits.
fn check_lower_hex(s: &str, start: usize, len: usize) -> (r: bool)
    requires
        start + len <= s@.len(),
    ensures
        r <==> all_lower_hex(s@.subrange(start as int, start as int + len as int)),
{
    let sn = s.unicode_len();
    let mut i: usize = 0;
    while i < len
        invariant
            sn == s@.len(),
            start + len <= sn,
            i <= len,
            forall|j: int| 0 <= j < i ==> is_lower_hex_char(#[trigger] s@[start + j]),
        decreases len - i,
    {
        let c = s.get_char(start + i);
        let u = c as u32;
        if !((48 <= u && u <= 57) || (97 <= u && u <= 102)) {
            proof {
                assert(!is_lower_hex_char(
                    s@.subrange(start as int, start as int + len as int)[i as int],
                ));
            }
            return false;
        }
        i = i + 1;
    }
    proof {
        assert forall|j: int| 0 <= j < len implies is_lower_hex_char(
            #[trigger] s@.subrange(start as int, start as int + len as int)[j],
        ) by {
            assert(s@.subrange(start as int, start as int + len as int)[j] == s@[start + j]);
        }
    }
    true
}

/// Reads a rendered record back into the raw public and secret key bytes.
/// It accepts exactly the texts that `spec_parse` gives a meaning, and
/// returns exactly those bytes.
pub fn parse_record(s: &str) -> (r: Option<(Vec<u8>, Vec<u8>)>)
    ensures
        r is None <==> spec_parse(s@) is None,
        r matches Some(p) ==> spec_parse(s@) == Some((p.0@, p.1@)),
{
    let pre = "{\n  \"public\": \"";
    let mid = "\",\n  \"secret\": \"";
    let suf = "\"\n}";
    proof {
        reveal_strlit("{\n  \"public\": \"");
        reveal_strlit("\",\n  \"secret\": \"");
        reveal_strlit("\"\n}");
    }
    let pl = pre.unicode_len();
    let ml = mid.unicode_len();
    let sl = suf.unicode_len();
    let pn = 2 * BLS_PUBLIC_KEY_LEN;
    let sn = 2 * BLS_SECRET_KEY_LEN;
    let n = s.unicode_len();
    if n != pl + pn + ml + sn + sl {
        return None;
    }
    if !has_at(s, 0, pre) {
        return None;
    }
    if !has_at(s, pl + pn, mid) {
        return None;
    }
    if !has_at(s, pl + pn + ml + sn, suf) {
        return None;
    }
    if !check_lower_hex(s, pl, pn) {
        return None;
    }
    if !check_lower_hex(s, pl + pn + ml, sn) {
        return None;
    }
    let ph = s.substring_char(pl, pl + pn);
    let sh = s.substring_char(pl + pn + ml, pl + pn + ml + sn);
    proof {
        assert forall|j: int| 0 <= j < ph@.len() implies crate::hexcodec::is_hex_char(
            #[trigger] ph@[j],
        ) by {}
        assert forall|j: int| 0 <= j < sh@.len() implies crate::hexcodec::is_hex_char(
            #[trigger] sh@[j],
        ) by {}
    }
    let pv = match hex_decode(ph) {
        Ok(v) => v,
        Err(_) => {
            return None;
        },
    };
    let sv = match hex_decode(sh) {
        Ok(v) => v,
        Err(_) => {
            return None;
        },
    };
    Some((pv, sv))
}

/// Round trip: rendering a well-formed key pair and parsing the record back
/// recovers exactly the original byte vectors.
pub proof fn lemma_render_parse_round_trip(kp: BLSKeyPair)
    requires
        kp.wf(),
    ensures
        spec_parse(render_chars(hex_chars_of(kp.public@), hex_chars_of(kp.secret@))) == Some(
            (kp.public@, kp.secret@),
        ),
{
    let p = kp.public@;
    let s = kp.secret@;
    lemma_decode_of_encode(p);
    lemma_decode_of_encode(s);
    let pre = "{\n  \"public\": \""@;
    let mid = "\",\n  \"secret\": \""@;
    let suf = "\"\n}"@;
    let pl = pre.len() as int;
    let ml = mid.len() as int;
    let sl = suf.len() as int;
    let pn = 2 * BLS_PUBLIC_KEY_LEN as int;
    let sn = 2 * BLS_SECRET_KEY_LEN as int;
    let t = render_chars(hex_chars_of(p), hex_chars_of(s));
    assert(t.len() == pl + pn + ml + sn + sl);
    assert(t.subrange(0, pl) =~= pre);
    assert(t.subrange(pl, pl + pn) =~= hex_chars_of(p));
    assert(t.subrange(pl + pn, pl + pn + ml) =~= mid);
    assert(t.subrange(pl + pn + ml, pl + pn + ml + sn) =~= hex_chars_of(s));
    assert(t.subrange(pl + pn + ml + sn, pl + pn + ml + sn + sl) =~= suf);
}

} // verus!
