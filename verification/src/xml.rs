//! Wire-format parser: decodes a block-map document into the model via the
//! builder.
//!
//! The document is a small XML subset: a root element carrying a version
//! attribute; scalar child elements for image size, block size, total block
//! count, mapped block count, checksum-algorithm name and a whole-document
//! checksum (read but not verified); and a block-map element holding a
//! sequence of range elements, each with a hex checksum attribute and a text
//! body of the form `N` or `N-M`.  Comments, processing instructions and
//! unknown elements are skipped; entity references and DOCTYPE declarations
//! are not supported.

use vstd::prelude::*;
use vstd::string::StringExecFns;
use vstd::string::StringSliceAdditionalSpecFns;

use crate::bmap::Bmap;
use crate::bmap::BmapBuilderError;
use crate::bmap::RangeModel;
use crate::bmap::ranges_ordered;
use crate::bmap::ranges_within;
use crate::hashes::HashType;
use crate::hashes::HashValue;

verus! {

/// Error of [`crate::Bmap::from_xml`].
#[derive(Clone, Debug, PartialEq, Eq)]
pub enum XmlError {
    /// The document is structurally malformed.
    XmlParsError(String),
    /// A required scalar field was missing when the map was built.
    InvalidFIleError(BmapBuilderError),
    /// The checksum-algorithm name matches no known algorithm's token.
    UnknownChecksumType(String),
    /// A range checksum is not a hex string of exactly twice the digest size.
    InvalidChecksum(String),
}

/// Relies on String::from_utf8_lossy: the identity on valid UTF-8 text.
#[verifier::external_body]
pub(crate) fn lossy_string(b: &[u8]) -> (r: String)
    ensures
        vstd::utf8::valid_utf8(b@) ==> vstd::utf8::encode_utf8(r@) == b@,
{
    String::from_utf8_lossy(b).into_owned()
}

/// Whether `c` is an ASCII hex digit.
pub open spec fn is_hex_digit(c: u8) -> bool {
    (48 <= c <= 57) || (97 <= c <= 102) || (65 <= c <= 70)
}

/// The value of hex digit `c`.
pub open spec fn hex_digit_value(c: u8) -> u8 {
    if 48 <= c <= 57 {
        (c - 48) as u8
    } else if 97 <= c <= 102 {
        (c - 97 + 10) as u8
    } else if 65 <= c <= 70 {
        (c - 65 + 10) as u8
    } else {
        0
    }
}

/// The byte a pair of hex digits denotes, high digit first.
pub open spec fn hex_byte(hi: u8, lo: u8) -> u8 {
    (hex_digit_value(hi) * 16 + hex_digit_value(lo)) as u8
}

/// The value of ASCII hex digit `c`, or nothing when `c` is no hex digit.
pub fn hexdigit_to_u8(c: u8) -> (r: Option<u8>)
    ensures
        r == if is_hex_digit(c) {
            Some(hex_digit_value(c))
        } else {
            None::<u8>
        },
{
    if 97 <= c && c <= 102 {
        Some(c - 97 + 10)
    } else if 65 <= c && c <= 70 {
        Some(c - 65 + 10)
    } else if 48 <= c && c <= 57 {
        Some(c - 48)
    } else {
        None
    }
}

/// Whether `s` is a well-formed hex encoding of `digest.len()` bytes: every
/// character a hex digit and the length exactly twice the digest size.
pub open spec fn hex_encodes(s: Seq<u8>, digest_len: int) -> bool {
    &&& s.len() == 2 * digest_len
    &&& forall|i: int| 0 <= i < s.len() ==> is_hex_digit(#[trigger] s[i])
}

/// Decodes the hex text `s` into `digest`, which arrives with the expected
/// digest length; strict: any character outside `0-9a-fA-F`, or a length
/// other than exactly twice the digest size, fails.
pub(crate) fn hex_to_digest(s: &[u8], digest: &mut Vec<u8>) -> (r: Result<(), ()>)
    ensures
        final(digest)@.len() == old(digest)@.len(),
        r is Ok <==> hex_encodes(s@, old(digest)@.len() as int),
        r is Ok ==> forall|i: int|
            0 <= i < final(digest)@.len() ==> final(digest)@[i] == hex_byte(s@[2 * i], s@[2 * i + 1]),
        s@.len() != 2 * old(digest)@.len() ==> final(digest)@ == old(digest)@,
    {
    let l = digest.len();
    if s.len() % 2 != 0 || s.len() / 2 != l {
        return Err(());
    }
    let mut i: usize = 0;
    while i < l
        invariant
            0 <= i <= l,
            l == digest@.len(),
            l == old(digest)@.len(),
            s@.len() == 2 * l,
            2 * l <= usize::MAX,
            forall|j: int| 0 <= j < 2 * i ==> is_hex_digit(#[trigger] s@[j]),
            forall|j: int| 0 <= j < i ==> digest@[j] == hex_byte(s@[2 * j], s@[2 * j + 1]),
        decreases l - i,
    {
        let hi = match hexdigit_to_u8(s[2 * i]) {
            Some(v) => v,
            None => {
                return Err(());
            },
        };
        let lo = match hexdigit_to_u8(s[2 * i + 1]) {
            Some(v) => v,
            None => {
                return Err(());
            },
        };
        digest[i] = hi << 4 | lo;
        proof {
            assert(hi < 16 && lo < 16);
            assert(hi << 4 == hi * 16) by (bit_vector)
                requires
                    hi < 16,
            ;
            assert((hi * 16) as u8 | lo == (hi * 16 + lo) as u8) by (bit_vector)
                requires
                    hi < 16 && lo < 16,
            ;
        }
        i += 1;
    }
    Ok(())
}

/// Decodes the hex digest text `s` into `digest`, which arrives with the
/// expected digest length.  Strict, as [`hex_to_digest`]; a failure carries
/// the offending text.
pub fn str_to_digest(s: &str, digest: &mut Vec<u8>) -> (r: Result<(), XmlError>)
    ensures
        final(digest)@.len() == old(digest)@.len(),
        r is Ok <==> hex_encodes(s.spec_bytes(), old(digest)@.len() as int),
        s.spec_bytes().len() != 2 * old(digest)@.len() ==> final(digest)@ == old(digest)@,
        r is Ok ==> forall|i: int|
            0 <= i < final(digest)@.len() ==> final(digest)@[i] == hex_byte(
                s.spec_bytes()[2 * i],
                s.spec_bytes()[2 * i + 1],
            ),
        r matches Err(e) ==> e matches XmlError::InvalidChecksum(t) && t@ == s@,
{
    match hex_to_digest(s.as_bytes(), digest) {
        Ok(()) => Ok(()),
        Err(()) => Err(XmlError::InvalidChecksum(s.to_owned())),
    }
}

/// Whether `c` is an ASCII decimal digit.
pub open spec fn is_dec_digit(c: u8) -> bool {
    48 <= c <= 57
}

/// Whether `s` consists of decimal digits only.
pub open spec fn all_dec_digits(s: Seq<u8>) -> bool {
    forall|i: int| 0 <= i < s.len() ==> is_dec_digit(#[trigger] s[i])
}

/// The number the decimal digit string `s` denotes.
pub open spec fn dec_value(s: Seq<u8>) -> int
    decreases s.len(),
{
    if s.len() == 0 {
        0
    } else {
        dec_value(s.drop_last()) * 10 + (s.last() - 48)
    }
}

proof fn lemma_dec_value_nonneg(s: Seq<u8>)
    requires
        all_dec_digits(s),
    ensures
        dec_value(s) >= 0,
    decreases s.len(),
{
    if s.len() > 0 {
        assert(all_dec_digits(s.drop_last()));
        lemma_dec_value_nonneg(s.drop_last());
    }
}

/// A digit string denotes at least as much as any of its prefixes.
proof fn lemma_dec_value_prefix(s: Seq<u8>, j: int)
    requires
        all_dec_digits(s),
        0 <= j <= s.len(),
    ensures
        dec_value(s.take(j)) <= dec_value(s),
    decreases s.len() - j,
{
    if j < s.len() {
        lemma_dec_value_prefix(s, j + 1);
        assert(s.take(j + 1).drop_last() =~= s.take(j));
        assert(all_dec_digits(s.take(j)));
        lemma_dec_value_nonneg(s.take(j));
        assert(dec_value(s.take(j + 1)) == dec_value(s.take(j)) * 10 + (s[j] - 48));
    } else {
        assert(s.take(j) =~= s);
    }
}

/// Parses a decimal number: some digits, nothing else, value within `u64`.
pub(crate) fn parse_u64(s: &[u8]) -> (r: Option<u64>)
    ensures
        r is Some <==> s@.len() > 0 && all_dec_digits(s@) && dec_value(s@) <= u64::MAX,
        r matches Some(v) ==> v == dec_value(s@),
{
    if s.len() == 0 {
        return None;
    }
    let mut acc: u64 = 0;
    let mut i: usize = 0;
    while i < s.len()
        invariant
            0 <= i <= s@.len(),
            forall|j: int| 0 <= j < i ==> is_dec_digit(#[trigger] s@[j]),
            acc == dec_value(s@.take(i as int)),
        decreases s@.len() - i,
    {
        let c = s[i];
        if c < 48 || c > 57 {
            return None;
        }
        let d = (c - 48) as u64;
        let wide: u128 = acc as u128 * 10 + d as u128;
        proof {
            assert(s@.take(i + 1).drop_last() =~= s@.take(i as int));
            assert(dec_value(s@.take(i + 1)) == dec_value(s@.take(i as int)) * 10 + (s@[i as int]
                - 48));
        }
        if wide > u64::MAX as u128 {
            proof {
                if all_dec_digits(s@) {
                    lemma_dec_value_prefix(s@, i + 1);
                }
            }
            return None;
        }
        acc = wide as u64;
        i += 1;
    }
    proof {
        assert(s@.take(s@.len() as int) =~= s@);
    }
    Some(acc)
}

/// Whether `c` is ASCII whitespace.
pub open spec fn is_xml_ws(c: u8) -> bool {
    c == 32 || c == 9 || c == 10 || c == 13
}

/// Whether `c` may appear in an element or attribute name.
pub open spec fn is_name_byte(c: u8) -> bool {
    (97 <= c <= 122) || (65 <= c <= 90) || (48 <= c <= 57) || c == 95 || c == 58 || c == 45 || c
        == 46
}

/// Number of leading whitespace bytes of `s`, seen from the front.
pub open spec fn ws_run_len(s: Seq<u8>) -> int
    decreases s.len(),
{
    if s.len() > 0 && is_xml_ws(s[0]) {
        1 + ws_run_len(s.drop_first())
    } else {
        0
    }
}

/// Number of leading name bytes of `s`.
pub open spec fn name_run_len(s: Seq<u8>) -> int
    decreases s.len(),
{
    if s.len() > 0 && is_name_byte(s[0]) {
        1 + name_run_len(s.drop_first())
    } else {
        0
    }
}

/// Number of leading text bytes (anything but `<`) of `s`.
pub open spec fn text_run_len(s: Seq<u8>) -> int
    decreases s.len(),
{
    if s.len() > 0 && s[0] != 60 {
        1 + text_run_len(s.drop_first())
    } else {
        0
    }
}

/// Position after the whitespace run starting at `i`.
pub open spec fn sws(s: Seq<u8>, i: int) -> int {
    i + ws_run_len(s.skip(i))
}

/// Position after the name run starting at `i`.
pub open spec fn sname(s: Seq<u8>, i: int) -> int {
    i + name_run_len(s.skip(i))
}

/// Position after the text run starting at `i`.
pub open spec fn stext(s: Seq<u8>, i: int) -> int {
    i + text_run_len(s.skip(i))
}

/// First position at or after `i` where byte `b` occurs.
pub open spec fn find_byte(s: Seq<u8>, i: int, b: u8) -> Option<int>
    decreases s.len() - i,
{
    if i >= s.len() {
        None
    } else if s[i] == b {
        Some(i)
    } else {
        find_byte(s, i + 1, b)
    }
}

/// First position at or after `i` where a comment terminator begins.
pub open spec fn find_comment_end(s: Seq<u8>, i: int) -> Option<int>
    decreases s.len() - i,
{
    if i + 3 > s.len() {
        None
    } else if s[i] == 45 && s[i + 1] == 45 && s[i + 2] == 62 {
        Some(i)
    } else {
        find_comment_end(s, i + 1)
    }
}

/// First position at or after `i` where an instruction terminator begins.
pub open spec fn find_pi_end(s: Seq<u8>, i: int) -> Option<int>
    decreases s.len() - i,
{
    if i + 2 > s.len() {
        None
    } else if s[i] == 63 && s[i + 1] == 62 {
        Some(i)
    } else {
        find_pi_end(s, i + 1)
    }
}

/// Whether at least `n` bytes remain at position `i`.
fn remaining_at_least(s: &[u8], i: usize, n: usize) -> (r: bool)
    requires
        i <= s@.len(),
    ensures
        r == (i + n <= s@.len()),
        s@.len() <= usize::MAX,
{
    n <= s.len() && i <= s.len() - n
}

fn is_ws_byte(c: u8) -> (r: bool)
    ensures
        r == is_xml_ws(c),
{
    c == 32 || c == 9 || c == 10 || c == 13
}

fn skip_ws(s: &[u8], i: usize) -> (j: usize)
    requires
        i <= s@.len(),
    ensures
        i <= j <= s@.len(),
        j == sws(s@, i as int),
{
    let mut j = i;
    while j < s.len() && is_ws_byte(s[j])
        invariant
            i <= j <= s@.len(),
            sws(s@, i as int) == sws(s@, j as int),
        decreases s@.len() - j,
    {
        proof {
            assert(s@.skip(j as int).drop_first() =~= s@.skip(j + 1));
        }
        j += 1;
    }
    j
}

/// A structural-error value with the given message.
fn structural(msg: &str) -> (r: XmlError)
    ensures
        r is XmlParsError,
{
    XmlError::XmlParsError(msg.to_owned())
}

/// Position after whitespace, comments and processing instructions starting
/// at `i`; nothing when a comment or instruction is unterminated.
pub open spec fn smisc(s: Seq<u8>, i: int) -> Option<int>
    decreases s.len() - i,
{
    let j2 = sws(s, i);
    if j2 + 4 <= s.len() && s[j2] == 60 && s[j2 + 1] == 33 && s[j2 + 2] == 45 && s[j2 + 3] == 45 {
        match find_comment_end(s, j2 + 4) {
            None => None,
            Some(k) => if i < k + 3 && k + 3 <= s.len() {
                smisc(s, k + 3)
            } else {
                None
            },
        }
    } else if j2 + 2 <= s.len() && s[j2] == 60 && s[j2 + 1] == 63 {
        match find_pi_end(s, j2 + 2) {
            None => None,
            Some(k) => if i < k + 2 && k + 2 <= s.len() {
                smisc(s, k + 2)
            } else {
                None
            },
        }
    } else {
        Some(j2)
    }
}

/// Skips whitespace, comments and processing instructions.
fn skip_misc(s: &[u8], i: usize) -> (r: Result<usize, XmlError>)
    requires
        i <= s@.len(),
    ensures
        r matches Ok(j) ==> i <= j <= s@.len() && smisc(s@, i as int) == Some(j as int),
        r is Err ==> smisc(s@, i as int) is None,
        r matches Err(e) ==> e is XmlParsError,
{
    let mut j = i;
    loop
        invariant
            i <= j <= s@.len(),
            smisc(s@, i as int) == smisc(s@, j as int),
        ensures
            i <= j <= s@.len(),
        decreases s@.len() - j,
    {
        let j2 = skip_ws(s, j);
        if remaining_at_least(s, j2, 4) && s[j2] == 60 && s[j2 + 1] == 33 && s[j2 + 2] == 45 && s[j2
            + 3] == 45 {
            // comment: scan for its terminator
            let mut k = j2 + 4;
            loop
                invariant
                    i <= j <= s@.len(),
                    smisc(s@, i as int) == smisc(s@, j as int),
                    j2 == sws(s@, j as int),
                    j2 + 4 <= s@.len(),
                    s@[j2 as int] == 60 && s@[j2 + 1] == 33 && s@[j2 + 2] == 45 && s@[j2 + 3]
                        == 45,
                    j2 + 4 <= k <= s@.len(),
                    find_comment_end(s@, j2 + 4) == find_comment_end(s@, k as int),
                ensures
                    j2 + 4 <= k && k + 3 <= s@.len(),
                    find_comment_end(s@, j2 + 4) == Some(k as int),
                decreases s@.len() - k,
            {
                if !remaining_at_least(s, k, 3) {
                    return Err(structural("unterminated comment"));
                }
                if s[k] == 45 && s[k + 1] == 45 && s[k + 2] == 62 {
                    break;
                }
                k += 1;
            }
            j = k + 3;
        } else if remaining_at_least(s, j2, 2) && s[j2] == 60 && s[j2 + 1] == 63 {
            // processing instruction: scan for its terminator
            let mut k = j2 + 2;
            loop
                invariant
                    i <= j <= s@.len(),
                    smisc(s@, i as int) == smisc(s@, j as int),
                    j2 == sws(s@, j as int),
                    !(j2 + 4 <= s@.len() && s@[j2 as int] == 60 && s@[j2 + 1] == 33 && s@[j2 + 2]
                        == 45 && s@[j2 + 3] == 45),
                    j2 + 2 <= s@.len(),
                    s@[j2 as int] == 60 && s@[j2 + 1] == 63,
                    j2 + 2 <= k <= s@.len(),
                    find_pi_end(s@, j2 + 2) == find_pi_end(s@, k as int),
                ensures
                    j2 + 2 <= k && k + 2 <= s@.len(),
                    find_pi_end(s@, j2 + 2) == Some(k as int),
                decreases s@.len() - k,
            {
                if !remaining_at_least(s, k, 2) {
                    return Err(structural("unterminated processing instruction"));
                }
                if s[k] == 63 && s[k + 1] == 62 {
                    break;
                }
                k += 1;
            }
            j = k + 2;
        } else {
            return Ok(j2);
        }
    }
}

fn is_name_b(c: u8) -> (r: bool)
    ensures
        r == is_name_byte(c),
{
    (97 <= c && c <= 122) || (65 <= c && c <= 90) || (48 <= c && c <= 57) || c == 95 || c == 58
        || c == 45 || c == 46
}

fn parse_name(s: &[u8], i: usize) -> (j: usize)
    requires
        i <= s@.len(),
    ensures
        i <= j <= s@.len(),
        j == sname(s@, i as int),
{
    let mut j = i;
    while j < s.len() && is_name_b(s[j])
        invariant
            i <= j <= s@.len(),
            sname(s@, i as int) == sname(s@, j as int),
        decreases s@.len() - j,
    {
        proof {
            assert(s@.skip(j as int).drop_first() =~= s@.skip(j + 1));
        }
        j += 1;
    }
    j
}

/// Spec-level byte span of one attribute's name and quoted value.
pub struct SAttr {
    pub name_lo: int,
    pub name_hi: int,
    pub val_lo: int,
    pub val_hi: int,
}

/// Spec-level parsed element open tag.
pub struct STag {
    pub name_lo: int,
    pub name_hi: int,
    pub self_closing: bool,
    pub end: int,
    pub attrs: Seq<SAttr>,
}

/// The attribute list, end position and self-closing flag of an open tag,
/// scanned from position `j` (just after the element name).
pub open spec fn sattrs(s: Seq<u8>, j: int) -> Option<(Seq<SAttr>, int, bool)>
    decreases s.len() - j,
{
    let j2 = sws(s, j);
    if j2 >= s.len() {
        None
    } else if s[j2] == 62 {
        Some((Seq::<SAttr>::empty(), j2 + 1, false))
    } else if s[j2] == 47 {
        if j2 + 2 <= s.len() && s[j2 + 1] == 62 {
            Some((Seq::<SAttr>::empty(), j2 + 2, true))
        } else {
            None
        }
    } else {
        let ah = sname(s, j2);
        if ah == j2 {
            None
        } else {
            let je = sws(s, ah);
            if je >= s.len() || s[je] != 61 {
                None
            } else {
                let jq = sws(s, je + 1);
                if jq >= s.len() || (s[jq] != 34 && s[jq] != 39) {
                    None
                } else {
                    match find_byte(s, jq + 1, s[jq]) {
                        None => None,
                        Some(vh) => if j < vh + 1 && vh + 1 <= s.len() {
                            match sattrs(s, vh + 1) {
                                None => None,
                                Some((rest, e, sc)) => Some(
                                    (
                                        seq![
                                            SAttr {
                                                name_lo: j2,
                                                name_hi: ah,
                                                val_lo: jq + 1,
                                                val_hi: vh,
                                            },
                                        ] + rest,
                                        e,
                                        sc,
                                    ),
                                ),
                            }
                        } else {
                            None
                        },
                    }
                }
            }
        }
    }
}

/// The element open tag at `i`, which must point at `<`.
pub open spec fn sopen(s: Seq<u8>, i: int) -> Option<STag> {
    if i >= s.len() || s[i] != 60 {
        None
    } else {
        let nl = i + 1;
        let nh = sname(s, nl);
        if nh == nl {
            None
        } else {
            match sattrs(s, nh) {
                None => None,
                Some((attrs, end, sc)) => Some(
                    STag { name_lo: nl, name_hi: nh, self_closing: sc, end, attrs },
                ),
            }
        }
    }
}

/// Byte span of one attribute's name and quoted value.
struct AttrSpan {
    name_lo: usize,
    name_hi: usize,
    val_lo: usize,
    val_hi: usize,
}

impl AttrSpan {
    /// All spans lie within a document of `len` bytes.
    spec fn wf(&self, len: int) -> bool {
        &&& self.name_lo <= self.name_hi <= len
        &&& self.val_lo <= self.val_hi <= len
    }
}

/// A parsed element open tag: its name span, its attributes, whether it is
/// self-closing, and the position just after it.
struct TagInfo {
    name_lo: usize,
    name_hi: usize,
    self_closing: bool,
    end: usize,
    attrs: Vec<AttrSpan>,
}

impl TagInfo {
    /// All spans lie within a document of `len` bytes.
    spec fn wf(&self, len: int) -> bool {
        &&& self.name_lo <= self.name_hi <= len
        &&& self.end <= len
        &&& forall|a: int| 0 <= a < self.attrs@.len() ==> (#[trigger] self.attrs@[a]).wf(len)
    }
}

/// The spec view of an attribute span.
spec fn attr_model(a: AttrSpan) -> SAttr {
    SAttr {
        name_lo: a.name_lo as int,
        name_hi: a.name_hi as int,
        val_lo: a.val_lo as int,
        val_hi: a.val_hi as int,
    }
}

/// The spec view of an attribute list.
spec fn attrs_model(v: Seq<AttrSpan>) -> Seq<SAttr> {
    v.map_values(|a: AttrSpan| attr_model(a))
}

/// The spec view of a parsed tag.
spec fn tag_model(t: TagInfo) -> STag {
    STag {
        name_lo: t.name_lo as int,
        name_hi: t.name_hi as int,
        self_closing: t.self_closing,
        end: t.end as int,
        attrs: attrs_model(t.attrs@),
    }
}

/// Parses an element open tag at `i`, which must point at `<`.
fn parse_open_tag(s: &[u8], i: usize) -> (r: Result<TagInfo, XmlError>)
    requires
        i <= s@.len(),
    ensures
        r matches Ok(t) ==> t.wf(s@.len() as int) && i < t.end && sopen(s@, i as int) == Some(
            tag_model(t),
        ),
        r is Err ==> sopen(s@, i as int) is None,
        r matches Err(e) ==> e is XmlParsError,
{
    if i >= s.len() || s[i] != 60 {
        return Err(structural("expected an element"));
    }
    let nl = i + 1;
    let nh = parse_name(s, nl);
    if nh == nl {
        return Err(structural("expected an element name"));
    }
    let mut j = nh;
    let mut attrs: Vec<AttrSpan> = Vec::new();
    proof {
        assert(attrs_model(attrs@) =~= Seq::<SAttr>::empty());
    }
    while j <= s.len()
        invariant
            i < s@.len(),
            s@[i as int] == 60,
            nl == i + 1,
            nh == sname(s@, nl as int),
            nh != nl,
            nh <= j <= s@.len(),
            i < nl <= nh,
            forall|a: int| 0 <= a < attrs@.len() ==> (#[trigger] attrs@[a]).wf(s@.len() as int),
            match sattrs(s@, j as int) {
                None => sopen(s@, i as int) is None,
                Some((rest, e, sc)) => sopen(s@, i as int) == Some(
                    STag {
                        name_lo: nl as int,
                        name_hi: nh as int,
                        self_closing: sc,
                        end: e,
                        attrs: attrs_model(attrs@) + rest,
                    },
                ),
            },
        decreases s@.len() - j,
    {
        let ghost jh = j as int;
        let j2 = skip_ws(s, j);
        if j2 >= s.len() {
            return Err(structural("unterminated element tag"));
        }
        if s[j2] == 62 {
            proof {
                assert(attrs_model(attrs@) + Seq::<SAttr>::empty() =~= attrs_model(attrs@));
            }
            return Ok(
                TagInfo { name_lo: nl, name_hi: nh, self_closing: false, end: j2 + 1, attrs },
            );
        }
        if s[j2] == 47 {
            if remaining_at_least(s, j2, 2) && s[j2 + 1] == 62 {
                proof {
                    assert(attrs_model(attrs@) + Seq::<SAttr>::empty() =~= attrs_model(attrs@));
                }
                return Ok(
                    TagInfo { name_lo: nl, name_hi: nh, self_closing: true, end: j2 + 2, attrs },
                );
            }
            return Err(structural("malformed element tag"));
        }
        let ah = parse_name(s, j2);
        if ah == j2 {
            return Err(structural("expected an attribute name"));
        }
        let je = skip_ws(s, ah);
        if je >= s.len() || s[je] != 61 {
            return Err(structural("expected = after attribute name"));
        }
        let jq = skip_ws(s, je + 1);
        if jq >= s.len() || (s[jq] != 34 && s[jq] != 39) {
            return Err(structural("expected a quoted attribute value"));
        }
        let quote = s[jq];
        let vl = jq + 1;
        let mut k = vl;
        while k < s.len() && s[k] != quote
            invariant
                vl <= k <= s@.len(),
                quote == s@[jq as int],
                find_byte(s@, vl as int, quote) == find_byte(s@, k as int, quote),
            decreases s@.len() - k,
        {
            proof {
                assert(find_byte(s@, k as int, quote) == find_byte(s@, k + 1, quote));
            }
            k += 1;
        }
        if k >= s.len() {
            proof {
                assert(find_byte(s@, vl as int, quote) is None);
            }
            return Err(structural("unterminated attribute value"));
        }
        let span = AttrSpan { name_lo: j2, name_hi: ah, val_lo: vl, val_hi: k };
        let ghost old_attrs = attrs@;
        attrs.push(span);
        proof {
            assert(find_byte(s@, vl as int, quote) == Some(k as int));
            let na = SAttr { name_lo: j2 as int, name_hi: ah as int, val_lo: vl as int, val_hi: k as int };
            assert(sattrs(s@, jh) == (match sattrs(s@, k + 1) {
                None => None::<(Seq<SAttr>, int, bool)>,
                Some((rest, e, sc)) => Some((seq![na] + rest, e, sc)),
            }));
            assert(attrs_model(attrs@) =~= attrs_model(old_attrs).push(na));
            match sattrs(s@, k + 1) {
                None => {},
                Some((rest, e, sc)) => {
                    assert(attrs_model(old_attrs) + (seq![na] + rest) =~= attrs_model(attrs@)
                        + rest);
                },
            }
        }
        j = k + 1;
    }
    Err(structural("unterminated element tag"))
}

/// Advances to the next `<` or to the end of the document.
fn read_text(s: &[u8], i: usize) -> (j: usize)
    requires
        i <= s@.len(),
    ensures
        i <= j <= s@.len(),
        j == stext(s@, i as int),
{
    let mut j = i;
    while j < s.len() && s[j] != 60
        invariant
            i <= j <= s@.len(),
            stext(s@, i as int) == stext(s@, j as int),
        decreases s@.len() - j,
    {
        proof {
            assert(s@.skip(j as int).drop_first() =~= s@.skip(j + 1));
        }
        j += 1;
    }
    j
}

/// Position after the closing tag at `i` whose name must equal `s[nl..nh]`.
pub open spec fn sclose(s: Seq<u8>, i: int, nl: int, nh: int) -> Option<int> {
    if i + 2 > s.len() || s[i] != 60 || s[i + 1] != 47 {
        None
    } else {
        let ml = i + 2;
        let mh = sname(s, ml);
        if s.subrange(nl, nh) != s.subrange(ml, mh) {
            None
        } else {
            let j = sws(s, mh);
            if j >= s.len() || s[j] != 62 {
                None
            } else {
                Some(j + 1)
            }
        }
    }
}

/// Parses the close tag at `i` whose name must equal `s[nl..nh]`.
fn expect_close(s: &[u8], i: usize, nl: usize, nh: usize) -> (r: Result<usize, XmlError>)
    requires
        i <= s@.len(),
        nl <= nh <= s@.len(),
    ensures
        r matches Ok(j) ==> i < j <= s@.len() && sclose(s@, i as int, nl as int, nh as int)
            == Some(j as int),
        r is Err ==> sclose(s@, i as int, nl as int, nh as int) is None,
        r matches Err(e) ==> e is XmlParsError,
{
    if !remaining_at_least(s, i, 2) || s[i] != 60 || s[i + 1] != 47 {
        return Err(structural("expected a closing tag"));
    }
    let ml = i + 2;
    let mh = parse_name(s, ml);
    let name = vstd::slice::slice_subrange(s, nl, nh);
    let closing = vstd::slice::slice_subrange(s, ml, mh);
    if !crate::hashes::bytes_equal(name, closing) {
        return Err(structural("mismatched closing tag"));
    }
    let j = skip_ws(s, mh);
    if j >= s.len() || s[j] != 62 {
        return Err(structural("malformed closing tag"));
    }
    Ok(j + 1)
}

/// Position after the body and closing tag of `depth` still-open elements,
/// scanned from `i`; mirrors the runtime walk, including its depth cap.
pub open spec fn sskip(s: Seq<u8>, i: int, depth: int) -> Option<int>
    decreases s.len() - i,
{
    if depth <= 0 {
        Some(i)
    } else {
        let t = stext(s, i);
        if t + 2 > s.len() {
            None
        } else if s[t + 1] == 47 {
            let ml = t + 2;
            let mh = sname(s, ml);
            let c = sws(s, mh);
            if c >= s.len() || s[c] != 62 {
                None
            } else if i < c + 1 && c + 1 <= s.len() {
                sskip(s, c + 1, depth - 1)
            } else {
                None
            }
        } else if s[t + 1] == 33 || s[t + 1] == 63 {
            match smisc(s, t) {
                None => None,
                Some(m) => if m <= t {
                    None
                } else if i < m && m <= s.len() {
                    sskip(s, m, depth)
                } else {
                    None
                },
            }
        } else {
            match sopen(s, t) {
                None => None,
                Some(tag) => if !tag.self_closing && depth == usize::MAX {
                    None
                } else if i < tag.end && tag.end <= s.len() {
                    sskip(s, tag.end, if tag.self_closing { depth } else { depth + 1 })
                } else {
                    None
                },
            }
        }
    }
}

/// Skips the body of an already-opened element, including nested elements,
/// up to and over its closing tag.
fn skip_element_body(s: &[u8], start: usize) -> (r: Result<usize, XmlError>)
    requires
        start <= s@.len(),
    ensures
        r matches Ok(j) ==> start <= j <= s@.len() && sskip(s@, start as int, 1) == Some(j as int),
        r is Err ==> sskip(s@, start as int, 1) is None,
        r matches Err(e) ==> e is XmlParsError,
{
    let mut depth: usize = 1;
    let mut j = start;
    while depth > 0
        invariant
            start <= j <= s@.len(),
            sskip(s@, start as int, 1) == sskip(s@, j as int, depth as int),
        decreases s@.len() - j, depth,
    {
        let t = read_text(s, j);
        if !remaining_at_least(s, t, 2) {
            return Err(structural("unterminated element"));
        }
        if s[t + 1] == 47 {
            // closing tag
            let ml = t + 2;
            let mh = parse_name(s, ml);
            let c = skip_ws(s, mh);
            if c >= s.len() || s[c] != 62 {
                return Err(structural("malformed closing tag"));
            }
            depth -= 1;
            j = c + 1;
        } else if s[t + 1] == 33 || s[t + 1] == 63 {
            // comment or processing instruction
            match skip_misc(s, t) {
                Ok(m) => {
                    if m <= t {
                        return Err(structural("malformed markup"));
                    }
                    j = m;
                },
                Err(e) => {
                    return Err(e);
                },
            }
        } else {
            match parse_open_tag(s, t) {
                Ok(tag) => {
                    proof {
                        assert(sopen(s@, t as int) == Some(tag_model(tag)));
                    }
                    if !tag.self_closing {
                        if depth == usize::MAX {
                            return Err(structural("elements nested too deeply"));
                        }
                        depth += 1;
                    }
                    j = tag.end;
                },
                Err(e) => {
                    return Err(e);
                },
            }
        }
    }
    Ok(j)
}

/// The byte sequence of the token `version`.
pub open spec fn tok_version() -> Seq<u8> {
    seq![118u8, 101u8, 114u8, 115u8, 105u8, 111u8, 110u8]
}

/// The byte sequence of the token `chksum`.
pub open spec fn tok_chksum() -> Seq<u8> {
    seq![99u8, 104u8, 107u8, 115u8, 117u8, 109u8]
}

/// The byte sequence of the token `Range`.
pub open spec fn tok_range() -> Seq<u8> {
    seq![82u8, 97u8, 110u8, 103u8, 101u8]
}

/// The byte sequence of the token `BlockMap`.
pub open spec fn tok_block_map() -> Seq<u8> {
    seq![66u8, 108u8, 111u8, 99u8, 107u8, 77u8, 97u8, 112u8]
}

/// The byte sequence of the token `ImageSize`.
pub open spec fn tok_image_size() -> Seq<u8> {
    seq![73u8, 109u8, 97u8, 103u8, 101u8, 83u8, 105u8, 122u8, 101u8]
}

/// The byte sequence of the token `BlockSize`.
pub open spec fn tok_block_size() -> Seq<u8> {
    seq![66u8, 108u8, 111u8, 99u8, 107u8, 83u8, 105u8, 122u8, 101u8]
}

/// The byte sequence of the token `BlocksCount`.
pub open spec fn tok_blocks_count() -> Seq<u8> {
    seq![66u8, 108u8, 111u8, 99u8, 107u8, 115u8, 67u8, 111u8, 117u8, 110u8, 116u8]
}

/// The byte sequence of the token `MappedBlocksCount`.
pub open spec fn tok_mapped_blocks_count() -> Seq<u8> {
    seq![77u8, 97u8, 112u8, 112u8, 101u8, 100u8, 66u8, 108u8, 111u8, 99u8, 107u8, 115u8, 67u8, 111u8, 117u8, 110u8, 116u8]
}

/// The byte sequence of the token `ChecksumType`.
pub open spec fn tok_checksum_type() -> Seq<u8> {
    seq![67u8, 104u8, 101u8, 99u8, 107u8, 115u8, 117u8, 109u8, 84u8, 121u8, 112u8, 101u8]
}

/// The byte sequence of the token `BmapFileChecksum`.
pub open spec fn tok_bmap_file_checksum() -> Seq<u8> {
    seq![66u8, 109u8, 97u8, 112u8, 70u8, 105u8, 108u8, 101u8, 67u8, 104u8, 101u8, 99u8, 107u8, 115u8, 117u8, 109u8]
}

/// The byte sequence of the token `sha256`.
pub open spec fn tok_sha256() -> Seq<u8> {
    seq![115u8, 104u8, 97u8, 50u8, 53u8, 54u8]
}

/// The byte sequences of the document's element, attribute and algorithm
/// tokens.
proof fn lemma_token_bytes()
    ensures
        "version".spec_bytes() == tok_version(),
        "chksum".spec_bytes() == tok_chksum(),
        "Range".spec_bytes() == tok_range(),
        "BlockMap".spec_bytes() == tok_block_map(),
        "ImageSize".spec_bytes() == tok_image_size(),
        "BlockSize".spec_bytes() == tok_block_size(),
        "BlocksCount".spec_bytes() == tok_blocks_count(),
        "MappedBlocksCount".spec_bytes() == tok_mapped_blocks_count(),
        "ChecksumType".spec_bytes() == tok_checksum_type(),
        "BmapFileChecksum".spec_bytes() == tok_bmap_file_checksum(),
        "sha256".spec_bytes() == tok_sha256(),
{
    reveal_strlit("version");
    assert(vstd::string::is_ascii("version")) by {
        assert(forall|i: int|
            0 <= i < "version"@.len() ==> '\0' <= #[trigger] "version"@[i] <= '\u{7f}');
    }
    vstd::string::is_ascii_spec_bytes("version");
    assert("version".spec_bytes() =~= tok_version());
    reveal_strlit("chksum");
    assert(vstd::string::is_ascii("chksum")) by {
        assert(forall|i: int|
            0 <= i < "chksum"@.len() ==> '\0' <= #[trigger] "chksum"@[i] <= '\u{7f}');
    }
    vstd::string::is_ascii_spec_bytes("chksum");
    assert("chksum".spec_bytes() =~= tok_chksum());
    reveal_strlit("Range");
    assert(vstd::string::is_ascii("Range")) by {
        assert(forall|i: int|
            0 <= i < "Range"@.len() ==> '\0' <= #[trigger] "Range"@[i] <= '\u{7f}');
    }
    vstd::string::is_ascii_spec_bytes("Range");
    assert("Range".spec_bytes() =~= tok_range());
    reveal_strlit("BlockMap");
    assert(vstd::string::is_ascii("BlockMap")) by {
        assert(forall|i: int|
            0 <= i < "BlockMap"@.len() ==> '\0' <= #[trigger] "BlockMap"@[i] <= '\u{7f}');
    }
    vstd::string::is_ascii_spec_bytes("BlockMap");
    assert("BlockMap".spec_bytes() =~= tok_block_map());
    reveal_strlit("ImageSize");
    assert(vstd::string::is_ascii("ImageSize")) by {
        assert(forall|i: int|
            0 <= i < "ImageSize"@.len() ==> '\0' <= #[trigger] "ImageSize"@[i] <= '\u{7f}');
    }
    vstd::string::is_ascii_spec_bytes("ImageSize");
    assert("ImageSize".spec_bytes() =~= tok_image_size());
    reveal_strlit("BlockSize");
    assert(vstd::string::is_ascii("BlockSize")) by {
        assert(forall|i: int|
            0 <= i < "BlockSize"@.len() ==> '\0' <= #[trigger] "BlockSize"@[i] <= '\u{7f}');
    }
    vstd::string::is_ascii_spec_bytes("BlockSize");
    assert("BlockSize".spec_bytes() =~= tok_block_size());
    reveal_strlit("BlocksCount");
    assert(vstd::string::is_ascii("BlocksCount")) by {
        assert(forall|i: int|
            0 <= i < "BlocksCount"@.len() ==> '\0' <= #[trigger] "BlocksCount"@[i] <= '\u{7f}');
    }
    vstd::string::is_ascii_spec_bytes("BlocksCount");
    assert("BlocksCount".spec_bytes() =~= tok_blocks_count());
    reveal_strlit("MappedBlocksCount");
    assert(vstd::string::is_ascii("MappedBlocksCount")) by {
        assert(forall|i: int|
            0 <= i < "MappedBlocksCount"@.len() ==> '\0' <= #[trigger] "MappedBlocksCount"@[i] <= '\u{7f}');
    }
    vstd::string::is_ascii_spec_bytes("MappedBlocksCount");
    assert("MappedBlocksCount".spec_bytes() =~= tok_mapped_blocks_count());
    reveal_strlit("ChecksumType");
    assert(vstd::string::is_ascii("ChecksumType")) by {
        assert(forall|i: int|
            0 <= i < "ChecksumType"@.len() ==> '\0' <= #[trigger] "ChecksumType"@[i] <= '\u{7f}');
    }
    vstd::string::is_ascii_spec_bytes("ChecksumType");
    assert("ChecksumType".spec_bytes() =~= tok_checksum_type());
    reveal_strlit("BmapFileChecksum");
    assert(vstd::string::is_ascii("BmapFileChecksum")) by {
        assert(forall|i: int|
            0 <= i < "BmapFileChecksum"@.len() ==> '\0' <= #[trigger] "BmapFileChecksum"@[i] <= '\u{7f}');
    }
    vstd::string::is_ascii_spec_bytes("BmapFileChecksum");
    assert("BmapFileChecksum".spec_bytes() =~= tok_bmap_file_checksum());
    reveal_strlit("sha256");
    assert(vstd::string::is_ascii("sha256")) by {
        assert(forall|i: int|
            0 <= i < "sha256"@.len() ==> '\0' <= #[trigger] "sha256"@[i] <= '\u{7f}');
    }
    vstd::string::is_ascii_spec_bytes("sha256");
    assert("sha256".spec_bytes() =~= tok_sha256());
}

/// The byte sequence of the root's version attribute token.
proof fn lemma_version_token()
    ensures
        "version".spec_bytes() == tok_version(),
{
    lemma_token_bytes();
}

/// Spec view of one raw range element: its checksum attribute text and its
/// body text.
pub struct SRawRange {
    pub chksum: Seq<u8>,
    pub body: Seq<u8>,
}

/// Spec view of the fields collected while scanning the document shape.
pub struct SScan {
    pub image_size: Option<Seq<u8>>,
    pub block_size: Option<Seq<u8>>,
    pub blocks: Option<Seq<u8>>,
    pub mapped_blocks: Option<Seq<u8>>,
    pub cstype: Option<Seq<u8>>,
    pub filesum: Option<Seq<u8>>,
    pub ranges: Option<Seq<SRawRange>>,
}

/// The raw ranges of a block-map element, scanned from `j` up to and over
/// its closing tag.
pub open spec fn srngs(s: Seq<u8>, j: int, tag: STag, acc: Seq<SRawRange>) -> Option<
    (Seq<SRawRange>, int),
>
    decreases s.len() - j,
{
    match smisc(s, j) {
        None => None,
        Some(m2) => if m2 >= s.len() {
            None
        } else if m2 + 2 <= s.len() && s[m2] == 60 && s[m2 + 1] == 47 {
            match sclose(s, m2, tag.name_lo, tag.name_hi) {
                None => None,
                Some(j2) => Some((acc, j2)),
            }
        } else {
            match sopen(s, m2) {
                None => None,
                Some(rtag) => if s.subrange(rtag.name_lo, rtag.name_hi) != tok_range() {
                    None
                } else {
                    match sfind_attr(s, rtag.attrs, tok_chksum()) {
                        None => None,
                        Some((cl, ch)) => match selem(s, rtag) {
                            None => None,
                            Some((body, j2)) => if j < j2 && j2 <= s.len() {
                                srngs(
                                    s,
                                    j2,
                                    tag,
                                    acc.push(SRawRange { chksum: s.subrange(cl, ch), body }),
                                )
                            } else {
                                None
                            },
                        },
                    }
                },
            }
        },
    }
}

/// The collected fields of the root's children, scanned from `i` up to and
/// over the root's closing tag.
pub open spec fn schildren(s: Seq<u8>, i: int, root: STag, st: SScan) -> Option<(SScan, int)>
    decreases s.len() - i,
{
    match smisc(s, i) {
        None => None,
        Some(m) => if m >= s.len() {
            None
        } else if m + 2 <= s.len() && s[m] == 60 && s[m + 1] == 47 {
            match sclose(s, m, root.name_lo, root.name_hi) {
                None => None,
                Some(j) => Some((st, j)),
            }
        } else {
            match sopen(s, m) {
                None => None,
                Some(tag) => {
                    let name = s.subrange(tag.name_lo, tag.name_hi);
                    if name == tok_block_map() {
                        if st.ranges is Some {
                            None
                        } else if tag.self_closing {
                            if i < tag.end && tag.end <= s.len() {
                                schildren(
                                    s,
                                    tag.end,
                                    root,
                                    SScan { ranges: Some(Seq::<SRawRange>::empty()), ..st },
                                )
                            } else {
                                None
                            }
                        } else {
                            match srngs(s, tag.end, tag, Seq::<SRawRange>::empty()) {
                                None => None,
                                Some((rr, j)) => if i < j && j <= s.len() {
                                    schildren(s, j, root, SScan { ranges: Some(rr), ..st })
                                } else {
                                    None
                                },
                            }
                        }
                    } else if name == tok_image_size() {
                        if st.image_size is Some {
                            None
                        } else {
                            match selem(s, tag) {
                                None => None,
                                Some((body, j)) => if i < j && j <= s.len() {
                                    schildren(s, j, root, SScan { image_size: Some(body), ..st })
                                } else {
                                    None
                                },
                            }
                        }
                    } else if name == tok_block_size() {
                        if st.block_size is Some {
                            None
                        } else {
                            match selem(s, tag) {
                                None => None,
                                Some((body, j)) => if i < j && j <= s.len() {
                                    schildren(s, j, root, SScan { block_size: Some(body), ..st })
                                } else {
                                    None
                                },
                            }
                        }
                    } else if name == tok_blocks_count() {
                        if st.blocks is Some {
                            None
                        } else {
                            match selem(s, tag) {
                                None => None,
                                Some((body, j)) => if i < j && j <= s.len() {
                                    schildren(s, j, root, SScan { blocks: Some(body), ..st })
                                } else {
                                    None
                                },
                            }
                        }
                    } else if name == tok_mapped_blocks_count() {
                        if st.mapped_blocks is Some {
                            None
                        } else {
                            match selem(s, tag) {
                                None => None,
                                Some((body, j)) => if i < j && j <= s.len() {
                                    schildren(
                                        s,
                                        j,
                                        root,
                                        SScan { mapped_blocks: Some(body), ..st },
                                    )
                                } else {
                                    None
                                },
                            }
                        }
                    } else if name == tok_checksum_type() {
                        if st.cstype is Some {
                            None
                        } else {
                            match selem(s, tag) {
                                None => None,
                                Some((body, j)) => if i < j && j <= s.len() {
                                    schildren(s, j, root, SScan { cstype: Some(body), ..st })
                                } else {
                                    None
                                },
                            }
                        }
                    } else if name == tok_bmap_file_checksum() {
                        if st.filesum is Some {
                            None
                        } else {
                            match selem(s, tag) {
                                None => None,
                                Some((body, j)) => if i < j && j <= s.len() {
                                    schildren(s, j, root, SScan { filesum: Some(body), ..st })
                                } else {
                                    None
                                },
                            }
                        }
                    } else if tag.self_closing {
                        if i < tag.end && tag.end <= s.len() {
                            schildren(s, tag.end, root, st)
                        } else {
                            None
                        }
                    } else {
                        match sskip(s, tag.end, 1) {
                            None => None,
                            Some(j) => if i < j && j <= s.len() {
                                schildren(s, j, root, st)
                            } else {
                                None
                            },
                        }
                    }
                },
            }
        },
    }
}

/// The empty scan state.
pub open spec fn sscan_empty() -> SScan {
    SScan {
        image_size: None,
        block_size: None,
        blocks: None,
        mapped_blocks: None,
        cstype: None,
        filesum: None,
        ranges: None,
    }
}

/// The scanned shape of a whole document: prolog, root element with its
/// version attribute, then the root's children.
pub open spec fn spec_scan(doc: Seq<u8>) -> Option<(SScan, int)> {
    match smisc(doc, 0) {
        None => None,
        Some(i) => match sopen(doc, i) {
            None => None,
            Some(root) => if sfind_attr(doc, root.attrs, tok_version()) is None {
                None
            } else if root.self_closing {
                Some((sscan_empty(), root.end))
            } else {
                schildren(doc, root.end, root, sscan_empty())
            },
        },
    }
}

/// Number of leading whitespace bytes of `s`.
pub open spec fn ws_prefix_len(s: Seq<u8>) -> int
    decreases s.len(),
{
    if s.len() > 0 && is_xml_ws(s[0]) {
        1 + ws_prefix_len(s.drop_first())
    } else {
        0
    }
}

/// Number of trailing whitespace bytes of `s`.
pub open spec fn ws_suffix_len(s: Seq<u8>) -> int
    decreases s.len(),
{
    if s.len() > 0 && is_xml_ws(s.last()) {
        1 + ws_suffix_len(s.drop_last())
    } else {
        0
    }
}

/// `s` with ASCII whitespace removed from both ends.
pub open spec fn spec_trim(s: Seq<u8>) -> Seq<u8> {
    if ws_prefix_len(s) == s.len() {
        Seq::<u8>::empty()
    } else {
        s.subrange(ws_prefix_len(s), s.len() - ws_suffix_len(s))
    }
}

proof fn lemma_ws_prefix(s: Seq<u8>, a: int)
    requires
        0 <= a <= s.len(),
        forall|j: int| 0 <= j < a ==> is_xml_ws(#[trigger] s[j]),
        a < s.len() ==> !is_xml_ws(s[a]),
    ensures
        ws_prefix_len(s) == a,
    decreases s.len(),
{
    if a > 0 {
        let t = s.drop_first();
        assert(forall|j: int| 0 <= j < a - 1 ==> #[trigger] t[j] == s[j + 1]);
        lemma_ws_prefix(t, a - 1);
    }
}

proof fn lemma_ws_suffix(s: Seq<u8>, b: int)
    requires
        0 <= b <= s.len(),
        forall|j: int| b <= j < s.len() ==> is_xml_ws(#[trigger] s[j]),
        b > 0 ==> !is_xml_ws(s[b - 1]),
    ensures
        ws_suffix_len(s) == s.len() - b,
    decreases s.len(),
{
    if b < s.len() {
        let t = s.drop_last();
        assert(forall|j: int| 0 <= j < t.len() ==> #[trigger] t[j] == s[j]);
        lemma_ws_suffix(t, b);
    }
}

/// Trims ASCII whitespace from both ends of `s[lo..hi]`.
fn trim_span(s: &[u8], lo: usize, hi: usize) -> (r: (usize, usize))
    requires
        lo <= hi <= s@.len(),
    ensures
        lo <= r.0 <= r.1 <= hi,
        s@.subrange(r.0 as int, r.1 as int) == spec_trim(s@.subrange(lo as int, hi as int)),
{
    let mut a = lo;
    let mut b = hi;
    while a < b && is_ws_byte(s[a])
        invariant
            lo <= a <= b <= hi <= s@.len(),
            forall|j: int| lo <= j < a ==> is_xml_ws(#[trigger] s@[j]),
        decreases b - a,
    {
        a += 1;
    }
    while b > a && is_ws_byte(s[b - 1])
        invariant
            lo <= a <= b <= hi <= s@.len(),
            forall|j: int| lo <= j < a ==> is_xml_ws(#[trigger] s@[j]),
            forall|j: int| b <= j < hi ==> is_xml_ws(#[trigger] s@[j]),
        decreases b - a,
    {
        b -= 1;
    }
    proof {
        let t = s@.subrange(lo as int, hi as int);
        assert(forall|j: int| 0 <= j < t.len() ==> #[trigger] t[j] == s@[lo + j]);
        if a == b {
            lemma_ws_prefix(t, t.len() as int);
            assert(ws_prefix_len(t) == t.len());
            assert(s@.subrange(a as int, b as int) =~= Seq::<u8>::empty());
        } else {
            lemma_ws_prefix(t, a - lo);
            lemma_ws_suffix(t, b - lo);
            assert(s@.subrange(a as int, b as int) =~= t.subrange(a - lo, b - lo));
        }
    }
    (a, b)
}

/// The quoted value span of the first attribute with the given name.
pub open spec fn sfind_attr(s: Seq<u8>, attrs: Seq<SAttr>, name: Seq<u8>) -> Option<(int, int)>
    decreases attrs.len(),
{
    if attrs.len() == 0 {
        None
    } else if s.subrange(attrs[0].name_lo, attrs[0].name_hi) == name {
        Some((attrs[0].val_lo, attrs[0].val_hi))
    } else {
        sfind_attr(s, attrs.drop_first(), name)
    }
}

/// The quoted value span of the named attribute, if the tag carries it.
fn find_attr(s: &[u8], tag: &TagInfo, name: &[u8]) -> (r: Option<(usize, usize)>)
    requires
        tag.wf(s@.len() as int),
    ensures
        r matches Some(v) ==> v.0 <= v.1 <= s@.len() && sfind_attr(
            s@,
            tag_model(*tag).attrs,
            name@,
        ) == Some((v.0 as int, v.1 as int)),
        r is None ==> sfind_attr(s@, tag_model(*tag).attrs, name@) is None,
{
    let ghost am = tag_model(*tag).attrs;
    proof {
        assert(am.skip(0) =~= am);
    }
    let mut a: usize = 0;
    while a < tag.attrs.len()
        invariant
            tag.wf(s@.len() as int),
            0 <= a <= tag.attrs@.len(),
            am == tag_model(*tag).attrs,
            sfind_attr(s@, am, name@) == sfind_attr(s@, am.skip(a as int), name@),
        decreases tag.attrs@.len() - a,
    {
        let at = &tag.attrs[a];
        let an = vstd::slice::slice_subrange(s, at.name_lo, at.name_hi);
        proof {
            assert(am.skip(a as int)[0] == attr_model(tag.attrs@[a as int]));
        }
        if crate::hashes::bytes_equal(an, name) {
            return Some((at.val_lo, at.val_hi));
        }
        proof {
            assert(am.skip(a as int).drop_first() =~= am.skip(a + 1));
        }
        a += 1;
    }
    proof {
        assert(am.skip(tag.attrs@.len() as int) =~= Seq::<SAttr>::empty());
    }
    None
}

/// The text body of an element whose open tag is `t`, and the position
/// after its closing tag; a self-closing element has an empty body.
pub open spec fn selem(s: Seq<u8>, t: STag) -> Option<(Seq<u8>, int)> {
    if t.self_closing {
        Some((Seq::<u8>::empty(), t.end))
    } else {
        let t1 = stext(s, t.end);
        match sclose(s, t1, t.name_lo, t.name_hi) {
            None => None,
            Some(j) => Some((s.subrange(t.end, t1), j)),
        }
    }
}

/// The text body of a scalar element, and the position after its closing
/// tag; a self-closing element has an empty body.
fn read_element_text(s: &[u8], tag: &TagInfo) -> (r: Result<(Vec<u8>, usize), XmlError>)
    requires
        tag.wf(s@.len() as int),
    ensures
        r matches Ok(v) ==> tag.end <= v.1 <= s@.len() && selem(s@, tag_model(*tag)) == Some(
            (v.0@, v.1 as int),
        ),
        r is Err ==> selem(s@, tag_model(*tag)) is None,
        r matches Err(e) ==> e is XmlParsError,
{
    if tag.self_closing {
        let empty_body: Vec<u8> = Vec::new();
        proof {
            assert(empty_body@ =~= Seq::<u8>::empty());
        }
        return Ok((empty_body, tag.end));
    }
    let t0 = tag.end;
    let t1 = read_text(s, t0);
    let body = vstd::slice::slice_to_vec(vstd::slice::slice_subrange(s, t0, t1));
    match expect_close(s, t1, tag.name_lo, tag.name_hi) {
        Ok(j) => Ok((body, j)),
        Err(e) => Err(e),
    }
}

/// Parses an algorithm from its canonical token given as raw bytes.
fn hash_type_from_bytes(b: &[u8]) -> (r: Option<HashType>)
    ensures
        r == if b@ == seq![115u8, 104u8, 97u8, 50u8, 53u8, 54u8] {
            Some(HashType::Sha256)
        } else {
            None::<HashType>
        },
{
    if b.len() == 6 && b[0] == 115 && b[1] == 104 && b[2] == 97 && b[3] == 50 && b[4] == 53 && b[5]
        == 54 {
        proof {
            assert(b@ =~= seq![115u8, 104u8, 97u8, 50u8, 53u8, 54u8]);
        }
        Some(HashType::Sha256)
    } else {
        proof {
            if b@ == seq![115u8, 104u8, 97u8, 50u8, 53u8, 54u8] {
                assert(b@.len() == 6);
            }
        }
        None
    }
}

/// Appending a range that starts no earlier than the previous one ended, and
/// ends within the image, keeps the range list well formed.
proof fn lemma_ranges_push(rs: Seq<RangeModel>, r: RangeModel, image: u64)
    requires
        ranges_ordered(rs),
        ranges_within(rs, image),
        rs.len() > 0 ==> rs.last().offset + rs.last().length <= r.offset,
        r.offset + r.length <= image,
    ensures
        ranges_ordered(rs.push(r)),
        ranges_within(rs.push(r), image),
{
    let e = rs.push(r);
    assert forall|i: int| 0 <= i && i + 1 < e.len() implies e[i].offset + e[i].length <= e[i
        + 1].offset by {
        if i + 1 < rs.len() {
            assert(e[i] == rs[i]);
            assert(e[i + 1] == rs[i + 1]);
        } else {
            assert(e[i] == rs[i]);
            assert(rs[i] == rs.last());
            assert(e[i + 1] == r);
        }
    }
    assert forall|i: int| 0 <= i < e.len() implies e[i].offset + e[i].length <= image by {
        if i < rs.len() {
            assert(e[i] == rs[i]);
        } else {
            assert(e[i] == r);
        }
    }
}

/// Classes of parse failure, in the order the parser checks for them.
#[derive(Clone, Copy, Debug, PartialEq, Eq, Structural)]
pub enum XmlErrorKind {
    /// The document is structurally malformed, a required element is
    /// missing or duplicated, a number is malformed, or a range is out of
    /// order or out of bounds.
    Malformed,
    /// The checksum-algorithm name matches no known token.
    UnknownChecksum,
    /// A range checksum attribute is not well-formed hex of the digest size.
    BadRangeChecksum,
    /// A required scalar was missing when the map was built.
    BuilderError,
}

/// The class of an [`XmlError`].
pub open spec fn xml_err_kind(e: XmlError) -> XmlErrorKind {
    match e {
        XmlError::XmlParsError(_) => XmlErrorKind::Malformed,
        XmlError::InvalidFIleError(_) => XmlErrorKind::BuilderError,
        XmlError::UnknownChecksumType(_) => XmlErrorKind::UnknownChecksum,
        XmlError::InvalidChecksum(_) => XmlErrorKind::BadRangeChecksum,
    }
}

/// The number a scalar element's text denotes: its trimmed text read as a
/// decimal number within `u64`.
pub open spec fn snum(t: Seq<u8>) -> Option<int> {
    let tr = spec_trim(t);
    if tr.len() > 0 && all_dec_digits(tr) && dec_value(tr) <= u64::MAX {
        Some(dec_value(tr))
    } else {
        None
    }
}

/// The inclusive block interval a range element's body denotes: a single
/// index `N`, or `N-M` split on the first dash of the trimmed text.
pub open spec fn sbody(body: Seq<u8>) -> Option<(int, int)> {
    let tr = spec_trim(body);
    let m = match find_byte(tr, 0, 45) {
        Some(x) => x,
        None => tr.len() as int,
    };
    let st = tr.subrange(0, m);
    if !(st.len() > 0 && all_dec_digits(st) && dec_value(st) <= u64::MAX) {
        None
    } else if m < tr.len() {
        let et = tr.subrange(m + 1, tr.len() as int);
        if !(et.len() > 0 && all_dec_digits(et) && dec_value(et) <= u64::MAX) {
            None
        } else {
            Some((dec_value(st), dec_value(et)))
        }
    } else {
        Some((dec_value(st), dec_value(st)))
    }
}

/// A decoded range: byte offset, clamped byte length, digest bytes.
pub struct ParsedRange {
    pub offset: u64,
    pub length: u64,
    pub digest: Seq<u8>,
}

/// The decoded document: its scalar fields and its ranges in document order.
pub struct ParsedModel {
    pub image_size: u64,
    pub block_size: u64,
    pub blocks: u64,
    pub mapped_blocks: u64,
    pub ranges: Seq<ParsedRange>,
}

/// Decodes one raw range element against the image geometry and the end of
/// the previous range: body to block interval, checksum attribute to digest,
/// indices to a byte offset and clamped length, ascending and in bounds.
pub open spec fn srange_step(r: SRawRange, image: int, bs: int, prev_end: int) -> Result<
    ParsedRange,
    XmlErrorKind,
> {
    match sbody(r.body) {
        None => Err(XmlErrorKind::Malformed),
        Some((start, end)) => if !hex_encodes(r.chksum, 32) {
            Err(XmlErrorKind::BadRangeChecksum)
        } else {
            let digest = Seq::new(32, |i: int| hex_byte(r.chksum[2 * i], r.chksum[2 * i + 1]));
            if start > end {
                Err(XmlErrorKind::Malformed)
            } else if end - start == u64::MAX {
                Err(XmlErrorKind::Malformed)
            } else if start * bs > image {
                Err(XmlErrorKind::Malformed)
            } else if (end - start + 1) * bs > u64::MAX {
                Err(XmlErrorKind::Malformed)
            } else if start * bs < prev_end {
                Err(XmlErrorKind::Malformed)
            } else {
                let offset = start * bs;
                let length = vstd::math::min(image - offset, (end - start + 1) * bs);
                Ok(ParsedRange { offset: offset as u64, length: length as u64, digest })
            }
        },
    }
}

/// Decodes the raw range elements in document order, each against the end of
/// the previous one.
pub open spec fn sranges_build(
    rr: Seq<SRawRange>,
    image: int,
    bs: int,
    prev_end: int,
    acc: Seq<ParsedRange>,
) -> Result<Seq<ParsedRange>, XmlErrorKind>
    decreases rr.len(),
{
    if rr.len() == 0 {
        Ok(acc)
    } else {
        match srange_step(rr[0], image, bs, prev_end) {
            Err(c) => Err(c),
            Ok(p) => sranges_build(
                rr.drop_first(),
                image,
                bs,
                p.offset + p.length,
                acc.push(p),
            ),
        }
    }
}

/// What the collected fields decode to: the scalars read as decimal
/// numbers, the checksum-algorithm token matched exactly, and the ranges
/// decoded in document order — or the first failure, classes checked in the
/// parser's fixed precedence.
pub open spec fn sassemble(st: SScan) -> Result<ParsedModel, XmlErrorKind> {
    if st.image_size is None || snum(st.image_size.unwrap()) is None {
        Err(XmlErrorKind::Malformed)
    } else if st.block_size is None || snum(st.block_size.unwrap()) is None {
        Err(XmlErrorKind::Malformed)
    } else if st.blocks is None || snum(st.blocks.unwrap()) is None {
        Err(XmlErrorKind::Malformed)
    } else if st.mapped_blocks is None || snum(st.mapped_blocks.unwrap()) is None {
        Err(XmlErrorKind::Malformed)
    } else if st.cstype is None {
        Err(XmlErrorKind::Malformed)
    } else if st.filesum is None {
        Err(XmlErrorKind::Malformed)
    } else if st.ranges is None {
        Err(XmlErrorKind::Malformed)
    } else if spec_trim(st.cstype.unwrap()) != tok_sha256() {
        Err(XmlErrorKind::UnknownChecksum)
    } else {
        let image = snum(st.image_size.unwrap()).unwrap();
        let bs = snum(st.block_size.unwrap()).unwrap();
        match sranges_build(st.ranges.unwrap(), image, bs, 0, Seq::<ParsedRange>::empty()) {
            Err(c) => Err(c),
            Ok(ranges) => Ok(
                ParsedModel {
                    image_size: image as u64,
                    block_size: bs as u64,
                    blocks: snum(st.blocks.unwrap()).unwrap() as u64,
                    mapped_blocks: snum(st.mapped_blocks.unwrap()).unwrap() as u64,
                    ranges,
                },
            ),
        }
    }
}

/// What a block-map document decodes to: its scanned shape interpreted by
/// [`sassemble`], or a structural failure when the shape itself is
/// malformed.
pub open spec fn spec_parse(doc: Seq<u8>) -> Result<ParsedModel, XmlErrorKind> {
    match spec_scan(doc) {
        None => Err(XmlErrorKind::Malformed),
        Some((st, _)) => sassemble(st),
    }
}

/// Whether a built map carries exactly the decoded document: equal scalar
/// fields, the single known algorithm, and one range per document range in
/// order with its offset, clamped length and digest bytes.
pub open spec fn parsed_matches(bm: crate::bmap::BmapModel, m: ParsedModel) -> bool {
    &&& bm.image_size == m.image_size
    &&& bm.block_size == m.block_size
    &&& bm.blocks == m.blocks
    &&& bm.mapped_blocks == m.mapped_blocks
    &&& bm.checksum_type == HashType::Sha256
    &&& bm.ranges.len() == m.ranges.len()
    &&& forall|k: int|
        0 <= k < bm.ranges.len() ==> (#[trigger] bm.ranges[k]).offset == m.ranges[k].offset
            && bm.ranges[k].length == m.ranges[k].length && bm.ranges[k].checksum.spec_bytes()
            == m.ranges[k].digest && bm.ranges[k].checksum.spec_type() == HashType::Sha256
}

/// One raw range element: its checksum attribute and its text body.
struct RawRange {
    chksum: Vec<u8>,
    body: Vec<u8>,
}

/// Spec view of an optional collected text.
spec fn text_model(o: Option<Vec<u8>>) -> Option<Seq<u8>> {
    match o {
        None => None,
        Some(v) => Some(v@),
    }
}

/// Spec view of one collected raw range.
spec fn raw_model(r: RawRange) -> SRawRange {
    SRawRange { chksum: r.chksum@, body: r.body@ }
}

/// Spec view of a collected raw range list.
spec fn raws_model(v: Seq<RawRange>) -> Seq<SRawRange> {
    v.map_values(|r: RawRange| raw_model(r))
}

/// Spec view of the optional collected raw range list.
spec fn rr_model(o: Option<Vec<RawRange>>) -> Option<Seq<SRawRange>> {
    match o {
        None => None,
        Some(v) => Some(raws_model(v@)),
    }
}

/// The scan state the collected fields stand for.
spec fn scan_of(
    a: Option<Vec<u8>>,
    b: Option<Vec<u8>>,
    c: Option<Vec<u8>>,
    d: Option<Vec<u8>>,
    e: Option<Vec<u8>>,
    f: Option<Vec<u8>>,
    g: Option<Vec<RawRange>>,
) -> SScan {
    SScan {
        image_size: text_model(a),
        block_size: text_model(b),
        blocks: text_model(c),
        mapped_blocks: text_model(d),
        cstype: text_model(e),
        filesum: text_model(f),
        ranges: rr_model(g),
    }
}

/// The decoded ranges a builder's range list stands for.
spec fn parsed_acc(rs: Seq<RangeModel>) -> Seq<ParsedRange> {
    rs.map_values(
        |r: RangeModel| ParsedRange {
            offset: r.offset,
            length: r.length,
            digest: r.checksum.spec_bytes(),
        },
    )
}

/// A scalar element's text as a decimal number; the element must have been
/// seen and its trimmed text must be a decimal number within `u64`.
fn scalar_u64(txt: &Option<Vec<u8>>, missing: &str) -> (r: Result<u64, XmlError>)
    ensures
        r is Ok <==> (txt matches Some(t) && spec_trim(t@).len() > 0 && all_dec_digits(
            spec_trim(t@),
        ) && dec_value(spec_trim(t@)) <= u64::MAX),
        r matches Ok(v) ==> (txt matches Some(t) ==> v == dec_value(spec_trim(t@))),
        r matches Err(e) ==> e is XmlParsError,
{
    let v = match txt {
        Some(v) => v,
        None => {
            return Err(structural(missing));
        },
    };
    let (a, b) = trim_span(v.as_slice(), 0, v.len());
    proof {
        assert(v@.subrange(0, v@.len() as int) =~= v@);
    }
    match parse_u64(vstd::slice::slice_subrange(v.as_slice(), a, b)) {
        Some(n) => Ok(n),
        None => Err(structural("malformed number")),
    }
}

/// The collected shape of one document: the raw texts of the scalar
/// elements and the raw range elements.
struct RawDoc {
    image_size: Option<Vec<u8>>,
    block_size: Option<Vec<u8>>,
    blocks: Option<Vec<u8>>,
    mapped_blocks: Option<Vec<u8>>,
    cstype: Option<Vec<u8>>,
    filesum: Option<Vec<u8>>,
    ranges: Option<Vec<RawRange>>,
}

/// The spec view of the collected shape.
spec fn doc_model(d: RawDoc) -> SScan {
    scan_of(d.image_size, d.block_size, d.blocks, d.mapped_blocks, d.cstype, d.filesum, d.ranges)
}

/// Scans the range elements of a block-map element whose open tag is `tag`,
/// up to and over its closing tag.
fn scan_ranges(s: &[u8], tag: &TagInfo) -> (r: Result<(Vec<RawRange>, usize), XmlError>)
    requires
        tag.wf(s@.len() as int),
    ensures
        r matches Ok(v) ==> tag.end <= v.1 <= s@.len() && srngs(
            s@,
            tag.end as int,
            tag_model(*tag),
            Seq::<SRawRange>::empty(),
        ) == Some((raws_model(v.0@), v.1 as int)),
        r is Err ==> srngs(s@, tag.end as int, tag_model(*tag), Seq::<SRawRange>::empty())
            is None,
        r matches Err(e) ==> e is XmlParsError,
{
    let mut rr: Vec<RawRange> = Vec::new();
    let mut j = tag.end;
    proof {
        assert(raws_model(rr@) =~= Seq::<SRawRange>::empty());
    }
    loop
        invariant_except_break
            srngs(s@, tag.end as int, tag_model(*tag), Seq::<SRawRange>::empty()) == srngs(
                s@,
                j as int,
                tag_model(*tag),
                raws_model(rr@),
            ),
        invariant
            tag.wf(s@.len() as int),
            tag.end <= j <= s@.len(),
        ensures
            tag.end <= j <= s@.len(),
            srngs(s@, tag.end as int, tag_model(*tag), Seq::<SRawRange>::empty()) == Some(
                (raws_model(rr@), j as int),
            ),
        decreases s@.len() - j,
    {
        let ghost jh = j as int;
        proof {
            lemma_token_bytes();
        }
        let m2 = match skip_misc(s, j) {
            Ok(m2) => m2,
            Err(e) => {
                return Err(e);
            },
        };
        if !remaining_at_least(s, m2, 1) {
            return Err(structural("unterminated block map"));
        }
        if remaining_at_least(s, m2, 2) && s[m2] == 60 && s[m2 + 1] == 47 {
            j = match expect_close(s, m2, tag.name_lo, tag.name_hi) {
                Ok(j2) => j2,
                Err(e) => {
                    return Err(e);
                },
            };
            break;
        }
        let rtag = match parse_open_tag(s, m2) {
            Ok(t) => t,
            Err(e) => {
                return Err(e);
            },
        };
        let rname = vstd::slice::slice_subrange(s, rtag.name_lo, rtag.name_hi);
        if !crate::hashes::bytes_equal(rname, "Range".as_bytes()) {
            return Err(structural("unexpected element in block map"));
        }
        let (cl, ch) = match find_attr(s, &rtag, "chksum".as_bytes()) {
            Some(v) => v,
            None => {
                return Err(structural("missing chksum attribute"));
            },
        };
        let chksum = vstd::slice::slice_to_vec(vstd::slice::slice_subrange(s, cl, ch));
        let (body, j2) = match read_element_text(s, &rtag) {
            Ok(v) => v,
            Err(e) => {
                return Err(e);
            },
        };
        let ghost old_rr = rr@;
        rr.push(RawRange { chksum, body });
        proof {
            assert(raws_model(rr@) =~= raws_model(old_rr).push(
                SRawRange { chksum: s@.subrange(cl as int, ch as int), body: rr@[rr@.len() - 1].body@ },
            ));
            assert(srngs(s@, jh, tag_model(*tag), raws_model(old_rr)) == srngs(
                s@,
                j2 as int,
                tag_model(*tag),
                raws_model(rr@),
            ));
        }
        j = j2;
    }
    Ok((rr, j))
}

/// Scans the root's children from `start`, collecting the scalar texts and
/// the range elements, up to and over the root's closing tag.
fn scan_children(s: &[u8], start: usize, root: &TagInfo) -> (r: Result<(RawDoc, usize), XmlError>)
    requires
        root.wf(s@.len() as int),
        start <= s@.len(),
    ensures
        r matches Ok(v) ==> v.1 <= s@.len() && schildren(
            s@,
            start as int,
            tag_model(*root),
            sscan_empty(),
        ) == Some((doc_model(v.0), v.1 as int)),
        r is Err ==> schildren(s@, start as int, tag_model(*root), sscan_empty()) is None,
        r matches Err(e) ==> e is XmlParsError,
{
    let mut d = RawDoc {
        image_size: None,
        block_size: None,
        blocks: None,
        mapped_blocks: None,
        cstype: None,
        filesum: None,
        ranges: None,
    };
    let mut i = start;
    proof {
        assert(doc_model(d) == sscan_empty());
    }
    loop
        invariant_except_break
            schildren(s@, start as int, tag_model(*root), sscan_empty()) == schildren(
                s@,
                i as int,
                tag_model(*root),
                doc_model(d),
            ),
        invariant
            root.wf(s@.len() as int),
            i <= s@.len(),
        ensures
            i <= s@.len(),
            schildren(s@, start as int, tag_model(*root), sscan_empty()) == Some(
                (doc_model(d), i as int),
            ),
        decreases s@.len() - i,
    {
        proof {
            lemma_token_bytes();
        }
        let ghost dm = doc_model(d);
        let m = match skip_misc(s, i) {
            Ok(m) => m,
            Err(e) => {
                return Err(e);
            },
        };
        if !remaining_at_least(s, m, 1) {
            return Err(structural("unterminated document"));
        }
        if remaining_at_least(s, m, 2) && s[m] == 60 && s[m + 1] == 47 {
            i = match expect_close(s, m, root.name_lo, root.name_hi) {
                Ok(j) => j,
                Err(e) => {
                    return Err(e);
                },
            };
            break;
        }
        let tag = match parse_open_tag(s, m) {
            Ok(t) => t,
            Err(e) => {
                return Err(e);
            },
        };
        let name = vstd::slice::slice_subrange(s, tag.name_lo, tag.name_hi);
        if crate::hashes::bytes_equal(name, "BlockMap".as_bytes()) {
            if d.ranges.is_some() {
                return Err(structural("duplicate BlockMap element"));
            }
            if tag.self_closing {
                let empty_ranges: Vec<RawRange> = Vec::new();
                proof {
                    assert(raws_model(empty_ranges@) =~= Seq::<SRawRange>::empty());
                }
                d.ranges = Some(empty_ranges);
                i = tag.end;
            } else {
                match scan_ranges(s, &tag) {
                    Ok((rrv, j)) => {
                        d.ranges = Some(rrv);
                        i = j;
                    },
                    Err(e) => {
                        return Err(e);
                    },
                }
            }
        } else if crate::hashes::bytes_equal(name, "ImageSize".as_bytes()) {
            if d.image_size.is_some() {
                return Err(structural("duplicate ImageSize element"));
            }
            let (body, j) = match read_element_text(s, &tag) {
                Ok(v) => v,
                Err(e) => {
                    return Err(e);
                },
            };
            d.image_size = Some(body);
            i = j;
        } else if crate::hashes::bytes_equal(name, "BlockSize".as_bytes()) {
            if d.block_size.is_some() {
                return Err(structural("duplicate BlockSize element"));
            }
            let (body, j) = match read_element_text(s, &tag) {
                Ok(v) => v,
                Err(e) => {
                    return Err(e);
                },
            };
            d.block_size = Some(body);
            i = j;
        } else if crate::hashes::bytes_equal(name, "BlocksCount".as_bytes()) {
            if d.blocks.is_some() {
                return Err(structural("duplicate BlocksCount element"));
            }
            let (body, j) = match read_element_text(s, &tag) {
                Ok(v) => v,
                Err(e) => {
                    return Err(e);
                },
            };
            d.blocks = Some(body);
            i = j;
        } else if crate::hashes::bytes_equal(name, "MappedBlocksCount".as_bytes()) {
            if d.mapped_blocks.is_some() {
                return Err(structural("duplicate MappedBlocksCount element"));
            }
            let (body, j) = match read_element_text(s, &tag) {
                Ok(v) => v,
                Err(e) => {
                    return Err(e);
                },
            };
            d.mapped_blocks = Some(body);
            i = j;
        } else if crate::hashes::bytes_equal(name, "ChecksumType".as_bytes()) {
            if d.cstype.is_some() {
                return Err(structural("duplicate ChecksumType element"));
            }
            let (body, j) = match read_element_text(s, &tag) {
                Ok(v) => v,
                Err(e) => {
                    return Err(e);
                },
            };
            d.cstype = Some(body);
            i = j;
        } else if crate::hashes::bytes_equal(name, "BmapFileChecksum".as_bytes()) {
            if d.filesum.is_some() {
                return Err(structural("duplicate BmapFileChecksum element"));
            }
            let (body, j) = match read_element_text(s, &tag) {
                Ok(v) => v,
                Err(e) => {
                    return Err(e);
                },
            };
            d.filesum = Some(body);
            i = j;
        } else {
            // unknown element: skipped, as unknown fields are ignored
            if tag.self_closing {
                i = tag.end;
            } else {
                i = match skip_element_body(s, tag.end) {
                    Ok(j) => j,
                    Err(e) => {
                        return Err(e);
                    },
                };
            }
        }
    }
    Ok((d, i))
}

/// Decodes one raw range element, mirroring [`srange_step`]: the trimmed
/// body as `N` or `N-M`, the checksum attribute as a digest, indices to a
/// byte offset and clamped length, ascending and within the image.
fn range_step(rrk: &RawRange, hash_type: HashType, image_size: u64, block_size: u64, prev_end: u64) -> (r:
    Result<(u64, u64, HashValue), XmlError>)
    ensures
        r matches Ok(v) ==> ({
            &&& srange_step(
                raw_model(*rrk),
                image_size as int,
                block_size as int,
                prev_end as int,
            ) == Ok::<ParsedRange, XmlErrorKind>(
                ParsedRange { offset: v.0, length: v.1, digest: v.2.spec_bytes() },
            )
            &&& v.2 is Sha256
            &&& prev_end <= v.0
            &&& v.0 + v.1 <= image_size
        }),
        r matches Err(e) ==> srange_step(
            raw_model(*rrk),
            image_size as int,
            block_size as int,
            prev_end as int,
        ) == Err::<ParsedRange, XmlErrorKind>(xml_err_kind(e)),
{
    let body = rrk.body.as_slice();
    let (bl, bh) = trim_span(body, 0, body.len());
    let ghost tr = spec_trim(rrk.body@);
    proof {
        assert(rrk.body@.subrange(0, rrk.body@.len() as int) =~= rrk.body@);
        assert(body@.subrange(bl as int, bh as int) == tr);
    }
    let mut m = bl;
    while m < bh && body[m] != 45
        invariant
            bl <= m <= bh <= body@.len(),
            tr == body@.subrange(bl as int, bh as int),
            find_byte(tr, 0, 45) == find_byte(tr, m - bl, 45),
        decreases bh - m,
    {
        proof {
            assert(tr[m - bl] == body@[m as int]);
            assert(find_byte(tr, m - bl, 45) == find_byte(tr, m + 1 - bl, 45));
        }
        m += 1;
    }
    let ghost sm = if m < bh {
        m - bl
    } else {
        tr.len() as int
    };
    proof {
        if m < bh {
            assert(tr[m - bl] == body@[m as int]);
        } else {
            assert(find_byte(tr, m - bl, 45) is None);
        }
        assert(body@.subrange(bl as int, m as int) =~= tr.subrange(0, sm));
    }
    let start = match parse_u64(vstd::slice::slice_subrange(body, bl, m)) {
        Some(v) => v,
        None => {
            return Err(structural("malformed range interval"));
        },
    };
    let end = if m < bh {
        proof {
            assert(body@.subrange(m + 1, bh as int) =~= tr.subrange(sm + 1, tr.len() as int));
        }
        match parse_u64(vstd::slice::slice_subrange(body, m + 1, bh)) {
            Some(v) => v,
            None => {
                return Err(structural("malformed range interval"));
            },
        }
    } else {
        start
    };
    proof {
        assert(sbody(raw_model(*rrk).body) == Some((start as int, end as int)));
    }
    let checksum = match hash_type {
        HashType::Sha256 => {
            let mut dv: Vec<u8> = vec![0u8; 32];
            match hex_to_digest(rrk.chksum.as_slice(), &mut dv) {
                Ok(()) => {},
                Err(()) => {
                    return Err(XmlError::InvalidChecksum(lossy_string(rrk.chksum.as_slice())));
                },
            }
            let mut arr = [0u8; 32];
            let mut ai: usize = 0;
            while ai < 32
                invariant
                    0 <= ai <= 32,
                    dv@.len() == 32,
                    forall|q: int| 0 <= q < ai ==> arr@[q] == dv@[q],
                decreases 32 - ai,
            {
                arr[ai] = dv[ai];
                ai += 1;
            }
            proof {
                assert(arr@ =~= dv@);
            }
            HashValue::Sha256(arr)
        },
    };
    proof {
        assert(checksum.spec_bytes() =~= Seq::new(
            32,
            |q: int| hex_byte(raw_model(*rrk).chksum[2 * q], raw_model(*rrk).chksum[2 * q + 1]),
        ));
    }
    if start > end {
        return Err(structural("range start after range end"));
    }
    if end - start == u64::MAX {
        return Err(structural("range interval too large"));
    }
    let cnt = end - start + 1;
    proof {
        assert((start as int) * (block_size as int) < 0x10000000000000000
            * 0x10000000000000000) by (nonlinear_arith)
            requires
                start <= u64::MAX && block_size <= u64::MAX,
        ;
        assert((cnt as int) * (block_size as int) < 0x10000000000000000
            * 0x10000000000000000) by (nonlinear_arith)
            requires
                cnt <= u64::MAX && block_size <= u64::MAX,
        ;
    }
    let off128: u128 = (start as u128) * (block_size as u128);
    if off128 > image_size as u128 {
        return Err(structural("range beyond image size"));
    }
    let offset = off128 as u64;
    let nom128: u128 = (cnt as u128) * (block_size as u128);
    if nom128 > u64::MAX as u128 {
        return Err(structural("range too large"));
    }
    let nominal = nom128 as u64;
    if offset < prev_end {
        return Err(structural("ranges out of order"));
    }
    let rem = image_size - offset;
    let length = if rem < nominal {
        rem
    } else {
        nominal
    };
    Ok((offset, length, checksum))
}

/// Interprets the collected fields, mirroring [`sassemble`]: scalars as
/// decimal numbers, the checksum-algorithm token matched exactly, ranges
/// decoded in document order, then the builder consulted.
#[verifier::rlimit(60)]
fn assemble(d: RawDoc) -> (r: Result<Bmap, XmlError>)
    ensures
        r matches Ok(b) ==> b.wf() && (sassemble(doc_model(d)) matches Ok(m) && parsed_matches(
            b@,
            m,
        )),
        r matches Err(e) ==> sassemble(doc_model(d)) == Err::<ParsedModel, XmlErrorKind>(
            xml_err_kind(e),
        ),
{
    let image_size = match scalar_u64(&d.image_size, "missing ImageSize element") {
        Ok(v) => v,
        Err(e) => {
            return Err(e);
        },
    };
    let block_size = match scalar_u64(&d.block_size, "missing BlockSize element") {
        Ok(v) => v,
        Err(e) => {
            return Err(e);
        },
    };
    let blocks = match scalar_u64(&d.blocks, "missing BlocksCount element") {
        Ok(v) => v,
        Err(e) => {
            return Err(e);
        },
    };
    let mapped_blocks = match scalar_u64(&d.mapped_blocks, "missing MappedBlocksCount element") {
        Ok(v) => v,
        Err(e) => {
            return Err(e);
        },
    };
    let cstype = match &d.cstype {
        Some(v) => v,
        None => {
            return Err(structural("missing ChecksumType element"));
        },
    };
    if d.filesum.is_none() {
        return Err(structural("missing BmapFileChecksum element"));
    }
    let rr = match &d.ranges {
        Some(v) => v,
        None => {
            return Err(structural("missing BlockMap element"));
        },
    };
    let (tl, th) = trim_span(cstype.as_slice(), 0, cstype.len());
    let token = vstd::slice::slice_subrange(cstype.as_slice(), tl, th);
    proof {
        assert(cstype@.subrange(0, cstype@.len() as int) =~= cstype@);
        assert(tok_sha256() == seq![115u8, 104u8, 97u8, 50u8, 53u8, 54u8]);
    }
    let hash_type = match hash_type_from_bytes(token) {
        Some(h) => h,
        None => {
            return Err(XmlError::UnknownChecksumType(lossy_string(token)));
        },
    };

    let mut builder = Bmap::builder();
    builder.image_size(image_size);
    builder.block_size(block_size);
    builder.blocks(blocks);
    builder.checksum_type(hash_type);
    builder.mapped_blocks(mapped_blocks);

    let ghost rrm_all = raws_model(rr@);
    let ghost agoal = sassemble(doc_model(d));
    proof {
        assert(rrm_all.skip(0) =~= rrm_all);
        assert(parsed_acc(builder@.ranges) =~= Seq::<ParsedRange>::empty());
        assert(agoal == (match sranges_build(
            rrm_all,
            image_size as int,
            block_size as int,
            0,
            Seq::<ParsedRange>::empty(),
        ) {
            Err(c) => Err::<ParsedModel, XmlErrorKind>(c),
            Ok(ranges) => Ok(
                (ParsedModel { image_size, block_size, blocks, mapped_blocks, ranges }),
            ),
        }));
    }

    let mut prev_end: u64 = 0;
    let mut idx: usize = 0;
    while idx < rr.len()
        invariant
            0 <= idx <= rr@.len(),
            rrm_all == raws_model(rr@),
            agoal == sassemble(doc_model(d)),
            builder@.image_size == Some(image_size),
            builder@.block_size == Some(block_size),
            builder@.blocks == Some(blocks),
            builder@.mapped_blocks == Some(mapped_blocks),
            builder@.checksum_type == Some(HashType::Sha256),
            ranges_ordered(builder@.ranges),
            ranges_within(builder@.ranges, image_size),
            builder@.ranges.len() > 0 ==> builder@.ranges.last().offset
                + builder@.ranges.last().length <= prev_end,
            prev_end <= image_size,
            forall|k: int|
                0 <= k < builder@.ranges.len() ==> (#[trigger] builder@.ranges[k]).checksum
                    is Sha256,
            agoal == (match sranges_build(
                rrm_all.skip(idx as int),
                image_size as int,
                block_size as int,
                prev_end as int,
                parsed_acc(builder@.ranges),
            ) {
                Err(c) => Err::<ParsedModel, XmlErrorKind>(c),
                Ok(ranges) => Ok(
                    (ParsedModel { image_size, block_size, blocks, mapped_blocks, ranges }),
                ),
            }),
        decreases rr@.len() - idx,
    {
        let ghost cur = rrm_all.skip(idx as int);
        proof {
            assert(cur[0] == raw_model(rr@[idx as int]));
            assert(cur.drop_first() =~= rrm_all.skip(idx + 1));
        }
        let rrk = &rr[idx];
        let (offset, length, checksum) = match range_step(
            rrk,
            hash_type,
            image_size,
            block_size,
            prev_end,
        ) {
            Ok(v) => v,
            Err(e) => {
                return Err(e);
            },
        };
        let ghost pre_ranges = builder@.ranges;
        builder.add_byte_range(offset, length, checksum);
        proof {
            let pushed = RangeModel { offset, length, checksum };
            assert(builder@.ranges == pre_ranges.push(pushed));
            lemma_ranges_push(pre_ranges, pushed, image_size);
            assert(parsed_acc(builder@.ranges) =~= parsed_acc(pre_ranges).push(
                ParsedRange { offset, length, digest: checksum.spec_bytes() },
            ));
        }
        prev_end = offset + length;
        idx += 1;
    }
    proof {
        assert(rrm_all.skip(rr@.len() as int) =~= Seq::<SRawRange>::empty());
    }
    match builder.build() {
        Ok(b) => {
            proof {
                assert(b@.ranges == builder@.ranges);
            }
            Ok(b)
        },
        Err(e) => {
            proof {
                assert(false);
            }
            Err(XmlError::InvalidFIleError(e))
        },
    }
}

/// Decodes a block-map document into the model via the builder.  The result
/// is exactly what [`spec_parse`] assigns to the document bytes: on success
/// a map carrying the decoded fields and ranges (and satisfying the
/// invariant the copy engine relies on), otherwise the first error in the
/// parser's fixed precedence, of the class [`spec_parse`] names.
#[verifier::rlimit(100)]
pub(crate) fn from_xml(xml: &str) -> (r: Result<Bmap, XmlError>)
    ensures
        r matches Ok(b) ==> b.wf() && (spec_parse(xml.spec_bytes()) matches Ok(m)
            && parsed_matches(b@, m)),
        r matches Err(e) ==> (spec_parse(xml.spec_bytes()) matches Err(c) && c == xml_err_kind(
            e,
        )),
{
    let s = xml.as_bytes();
    let i = match skip_misc(s, 0) {
        Ok(j) => j,
        Err(e) => {
            proof {
                assert(spec_parse(s@) == Err::<ParsedModel, XmlErrorKind>(
                    XmlErrorKind::Malformed,
                ));
            }
            return Err(e);
        },
    };
    let root = match parse_open_tag(s, i) {
        Ok(t) => t,
        Err(e) => {
            proof {
                assert(spec_parse(s@) == Err::<ParsedModel, XmlErrorKind>(
                    XmlErrorKind::Malformed,
                ));
            }
            return Err(e);
        },
    };
    proof {
        lemma_version_token();
    }
    if find_attr(s, &root, "version".as_bytes()).is_none() {
        proof {
            assert(spec_scan(s@) is None);
            assert(spec_parse(s@) == Err::<ParsedModel, XmlErrorKind>(XmlErrorKind::Malformed));
        }
        return Err(structural("missing version attribute"));
    }
    let d = if root.self_closing {
        let d0 = RawDoc {
            image_size: None,
            block_size: None,
            blocks: None,
            mapped_blocks: None,
            cstype: None,
            filesum: None,
            ranges: None,
        };
        proof {
            assert(doc_model(d0) == sscan_empty());
            assert(spec_scan(s@) == Some((doc_model(d0), tag_model(root).end)));
        }
        d0
    } else {
        match scan_children(s, root.end, &root) {
            Ok(v) => {
                proof {
                    assert(spec_scan(s@) == Some((doc_model(v.0), v.1 as int)));
                }
                v.0
            },
            Err(e) => {
                proof {
                    assert(spec_scan(s@) is None);
                    assert(spec_parse(s@) == Err::<ParsedModel, XmlErrorKind>(
                        XmlErrorKind::Malformed,
                    ));
                }
                return Err(e);
            },
        }
    };
    proof {
        assert(spec_scan(s@) matches Some(v) && v.0 == doc_model(d));
        assert(spec_parse(s@) == sassemble(doc_model(d)));
    }
    assemble(d)
}

} // verus!
