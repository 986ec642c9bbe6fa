//! Routing of inbound blobs to the channel of their logical type.
//!
//! The dispatcher holds the set of configured type identifiers, fixed at
//! startup. Routing validates the writer identity first and then looks the
//! type up; only a blob that passes both checks is enqueued, and it is
//! enqueued on exactly the channel of its own type.

use vstd::prelude::*;
use vstd::string::StringSliceAdditionalSpecFns;

verus! {

/// The views of a sequence of byte vectors.
pub open spec fn seq_views(parts: Seq<Vec<u8>>) -> Seq<Seq<u8>> {
    parts.map_values(|p: Vec<u8>| p@)
}

/// The segments of `s` between occurrences of `sep`: one segment more than
/// there are separators, empty segments kept.
pub open spec fn spec_split(s: Seq<u8>, sep: u8) -> Seq<Seq<u8>>
    decreases s.len(),
{
    if s.len() == 0 {
        seq![Seq::empty()]
    } else if s.last() == sep {
        spec_split(s.drop_last(), sep).push(Seq::empty())
    } else {
        let prev = spec_split(s.drop_last(), sep);
        prev.update(prev.len() - 1, prev.last().push(s.last()))
    }
}

/// A byte with any ASCII upper-case letter folded to lower case.
pub open spec fn spec_ascii_lower(b: u8) -> u8 {
    if 65 <= b && b <= 90 {
        (b + 32) as u8
    } else {
        b
    }
}

/// A byte sequence folded to ASCII lower case.
pub open spec fn spec_lowered(s: Seq<u8>) -> Seq<u8> {
    s.map_values(|b: u8| spec_ascii_lower(b))
}

/// Every byte is an ASCII decimal digit.
pub open spec fn spec_all_digits(s: Seq<u8>) -> bool {
    forall|i: int| 0 <= i < s.len() ==> 48 <= #[trigger] s[i] && s[i] <= 57
}

/// The number the digits spell, most significant first.
pub open spec fn spec_digits_value(s: Seq<u8>) -> int
    decreases s.len(),
{
    if s.len() == 0 {
        0
    } else {
        spec_digits_value(s.drop_last()) * 10 + (s.last() - 48)
    }
}

/// What parsing a decimal unsigned 32-bit number accepts: an optional
/// leading plus sign, then at least one digit, spelling a value that fits.
pub open spec fn spec_parse_u32(s: Seq<u8>) -> Option<u32> {
    let digits = if s.len() > 0 && s[0] == 43 {
        s.skip(1)
    } else {
        s
    };
    if digits.len() > 0 && spec_all_digits(digits) && spec_digits_value(digits) <= u32::MAX {
        Some(spec_digits_value(digits) as u32)
    } else {
        None
    }
}

/// The label naming the type segment.
pub open spec fn spec_type_id_label() -> Seq<u8> {
    seq![116, 121, 112, 101, 95, 105, 100]
}

/// The label naming the writer segment.
pub open spec fn spec_writer_id_label() -> Seq<u8> {
    seq![119, 114, 105, 116, 101, 114, 95, 105, 100]
}

/// What the ingress accepts as a path: split at every slash, the second
/// segment must spell the type label and the fourth the writer label, both
/// compared after ASCII lower-casing, and the third and fifth must parse as
/// unsigned 32-bit numbers. Leading and trailing segments are ignored.
pub open spec fn spec_parse_path(b: Seq<u8>) -> Option<(u32, u32)> {
    let parts = spec_split(b, 47);
    if parts.len() < 5 {
        None
    } else if spec_lowered(parts[1]) != spec_type_id_label()
        || spec_lowered(parts[3]) != spec_writer_id_label() {
        None
    } else {
        match (spec_parse_u32(parts[2]), spec_parse_u32(parts[4])) {
            (Some(t), Some(w)) => Some((t, w)),
            _ => None,
        }
    }
}

/// Digit values never shrink as more digits arrive.
proof fn lemma_digits_value_nonneg(s: Seq<u8>)
    requires
        spec_all_digits(s),
    ensures
        spec_digits_value(s) >= 0,
    decreases s.len(),
{
    if s.len() > 0 {
        assert(spec_all_digits(s.drop_last()));
        lemma_digits_value_nonneg(s.drop_last());
    }
}

/// The value of a digit string is at least the value of any of its prefixes.
proof fn lemma_digits_value_mono(s: Seq<u8>, k: int)
    requires
        0 <= k <= s.len(),
        spec_all_digits(s),
    ensures
        spec_digits_value(s) >= spec_digits_value(s.take(k)),
    decreases s.len() - k,
{
    if k == s.len() {
        assert(s.take(k) =~= s);
    } else {
        assert(spec_all_digits(s.take(k)));
        lemma_digits_value_nonneg(s.take(k));
        assert(s.take(k + 1).drop_last() =~= s.take(k));
        assert(s.take(k + 1).last() == s[k]);
        lemma_digits_value_mono(s, k + 1);
    }
}

/// Splits a byte slice at every occurrence of `sep`, empty segments kept.
fn split_bytes(s: &[u8], sep: u8) -> (parts: Vec<Vec<u8>>)
    ensures
        seq_views(parts@) == spec_split(s@, sep),
{
    let mut parts: Vec<Vec<u8>> = Vec::new();
    let mut cur: Vec<u8> = Vec::new();
    let mut i: usize = 0;
    while i < s.len()
        invariant
            i <= s@.len(),
            seq_views(parts@).push(cur@) == spec_split(s@.take(i as int), sep),
        decreases s@.len() - i,
    {
        proof {
            assert(s@.take(i + 1).drop_last() =~= s@.take(i as int));
            assert(s@.take(i + 1).last() == s@[i as int]);
        }
        let b = s[i];
        if b == sep {
            parts.push(cur);
            cur = Vec::new();
            proof {
                assert(seq_views(parts@) =~= seq_views(parts@.drop_last()).push(parts@.last()@));
                assert(seq_views(parts@).push(cur@)
                    =~= spec_split(s@.take(i as int), sep).push(Seq::<u8>::empty()));
            }
        } else {
            cur.push(b);
            proof {
                let prev = spec_split(s@.take(i as int), sep);
                assert(seq_views(parts@).push(cur@)
                    =~= prev.update(prev.len() - 1, prev.last().push(s@[i as int])));
            }
        }
        i += 1;
    }
    proof {
        assert(s@.take(s@.len() as int) =~= s@);
    }
    parts.push(cur);
    proof {
        assert(seq_views(parts@) =~= seq_views(parts@.drop_last()).push(parts@.last()@));
    }
    parts
}

/// Folds one byte to ASCII lower case.
fn ascii_lower(b: u8) -> (r: u8)
    ensures
        r == spec_ascii_lower(b),
{
    if 65 <= b && b <= 90 {
        b + 32
    } else {
        b
    }
}

/// Whether `s`, folded to ASCII lower case, spells `label`.
fn eq_lowered(s: &[u8], label: &[u8]) -> (r: bool)
    ensures
        r == (spec_lowered(s@) == label@),
{
    if s.len() != label.len() {
        return false;
    }
    let mut i: usize = 0;
    while i < s.len()
        invariant
            i <= s@.len(),
            s@.len() == label@.len(),
            forall|j: int| 0 <= j < i ==> spec_ascii_lower(s@[j]) == label@[j],
        decreases s@.len() - i,
    {
        if ascii_lower(s[i]) != label[i] {
            proof {
                assert(spec_lowered(s@)[i as int] != label@[i as int]);
            }
            return false;
        }
        i += 1;
    }
    proof {
        assert(spec_lowered(s@) =~= label@);
    }
    true
}

/// Parses an unsigned 32-bit decimal number, as the standard library's
/// string parsing accepts it: an optional leading plus sign, then at least
/// one digit, rejecting values that do not fit.
fn parse_u32_bytes(s: &[u8]) -> (r: Option<u32>)
    ensures
        r == spec_parse_u32(s@),
{
    let start: usize = if s.len() > 0 && s[0] == 43 {
        1
    } else {
        0
    };
    let ghost digits = if start == 1 { s@.skip(1) } else { s@ };
    if s.len() == start {
        return None;
    }
    let mut acc: u64 = 0;
    let mut i: usize = start;
    while i < s.len()
        invariant
            start <= i <= s@.len(),
            start == 0 || start == 1,
            digits == (if s@.len() > 0 && s@[0] == 43 { s@.skip(1) } else { s@ }),
            digits == (if start == 1 { s@.skip(1) } else { s@ }),
            digits.len() == s@.len() - start,
            digits.len() > 0,
            forall|j: int| 0 <= j < digits.len() ==> digits[j] == s@[j + start],
            spec_all_digits(digits.take(i - start)),
            acc == spec_digits_value(digits.take(i - start)),
            acc <= u32::MAX,
        decreases s@.len() - i,
    {
        let ghost k = i - start;
        proof {
            assert(digits.take(k + 1).drop_last() =~= digits.take(k as int));
            assert(digits.take(k + 1).last() == digits[k]);
            assert(digits[k] == s@[i as int]);
        }
        let b = s[i];
        if b < 48 || b > 57 {
            proof {
                assert(!(48 <= digits[k] && digits[k] <= 57));
            }
            return None;
        }
        let d = (b - 48) as u64;
        let next = acc * 10 + d;
        if next > u32::MAX as u64 {
            proof {
                assert(spec_digits_value(digits.take(k + 1)) == acc * 10 + d);
                if spec_all_digits(digits) {
                    lemma_digits_value_mono(digits, k + 1);
                }
            }
            return None;
        }
        acc = next;
        i += 1;
    }
    proof {
        assert(digits.take(digits.len() as int) =~= digits);
    }
    Some(acc as u32)
}

/// Reads the logical type and the writer identity out of a request path of
/// the form `/type_id/<n>/writer_id/<k>`, the labels matched after ASCII
/// lower-casing, further segments ignored.
pub fn parse_path(path: &str) -> (r: Option<(u32, u32)>)
    ensures
        r == spec_parse_path(path.spec_bytes()),
{
    let bytes = path.as_bytes();
    let parts = split_bytes(bytes, 47);
    proof {
        assert(seq_views(parts@).len() == parts@.len());
    }
    if parts.len() < 5 {
        return None;
    }
    let mut tl: Vec<u8> = Vec::new();
    tl.push(116);
    tl.push(121);
    tl.push(112);
    tl.push(101);
    tl.push(95);
    tl.push(105);
    tl.push(100);
    proof {
        assert(tl@ =~= spec_type_id_label());
    }
    let mut wl: Vec<u8> = Vec::new();
    wl.push(119);
    wl.push(114);
    wl.push(105);
    wl.push(116);
    wl.push(101);
    wl.push(114);
    wl.push(95);
    wl.push(105);
    wl.push(100);
    proof {
        assert(wl@ =~= spec_writer_id_label());
    }
    proof {
        assert(seq_views(parts@)[1] == parts@[1]@);
        assert(seq_views(parts@)[2] == parts@[2]@);
        assert(seq_views(parts@)[3] == parts@[3]@);
        assert(seq_views(parts@)[4] == parts@[4]@);
    }
    if !eq_lowered(parts[1].as_slice(), tl.as_slice()) {
        return None;
    }
    if !eq_lowered(parts[3].as_slice(), wl.as_slice()) {
        return None;
    }
    let t = parse_u32_bytes(parts[2].as_slice());
    let w = parse_u32_bytes(parts[4].as_slice());
    match (t, w) {
        (Some(type_id), Some(writer_id)) => Some((type_id, writer_id)),
        _ => None,
    }
}

/// Writer identities run from zero below this bound.
pub const WRITER_COUNT: u32 = 10;

/// Why a submission was rejected before it reached any channel.
#[derive(Clone, Copy, Debug, PartialEq, Eq, Structural)]
pub enum RoutingError {
    /// No channel is configured for the requested type.
    UnknownType,
    /// The writer identity lies outside the allowed range.
    WriterOutOfRange,
}

/// One inbound blob together with the identity of its writer.
#[derive(Debug)]
pub struct PostData {
    pub data: Vec<u8>,
    pub writer_id: u32,
}

impl PostData {
    pub fn new(writer_id: u32, data: Vec<u8>) -> (r: PostData)
        ensures
            r.writer_id == writer_id,
            r.data == data,
    {
        PostData { data, writer_id }
    }
}

/// The type identifiers configured at startup, in channel order; fixed for
/// the process lifetime.
pub struct Dispatcher {
    pub types: Vec<u32>,
}

impl Dispatcher {
    pub fn new(types: Vec<u32>) -> (r: Dispatcher)
        ensures
            r.types == types,
    {
        Dispatcher { types }
    }

    /// Validates a submission and names the channel it belongs on: the
    /// writer bound is checked first, then the type is looked up. `Ok(i)`
    /// is returned exactly when both pass, and `i` is the first position
    /// configured for this type.
    pub fn route(&self, type_id: u32, writer_id: u32) -> (r: Result<usize, RoutingError>)
        ensures
            match r {
                Ok(i) => {
                    &&& writer_id < WRITER_COUNT
                    &&& i < self.types@.len()
                    &&& self.types@[i as int] == type_id
                    &&& forall|j: int| 0 <= j < i ==> self.types@[j] != type_id
                },
                Err(RoutingError::WriterOutOfRange) => writer_id >= WRITER_COUNT,
                Err(RoutingError::UnknownType) => {
                    &&& writer_id < WRITER_COUNT
                    &&& !self.types@.contains(type_id)
                },
            },
    {
        if writer_id >= WRITER_COUNT {
            return Err(RoutingError::WriterOutOfRange);
        }
        let mut i: usize = 0;
        while i < self.types.len()
            invariant
                i <= self.types@.len(),
                writer_id < WRITER_COUNT,
                forall|j: int| 0 <= j < i ==> self.types@[j] != type_id,
            decreases self.types@.len() - i,
        {
            if self.types[i] == type_id {
                return Ok(i);
            }
            i += 1;
        }
        proof {
            assert(forall|j: int| 0 <= j < self.types@.len() ==> self.types@[j] != type_id);
        }
        Err(RoutingError::UnknownType)
    }
}

} // verus!
