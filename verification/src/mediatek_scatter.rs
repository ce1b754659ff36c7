//! The MediaTek scatter-file grammar: a line-oriented header followed by partition records, each
//! opened by a `- partition_index:` line and holding one value per known key.
use vstd::prelude::*;
use crate::archive_path::{drive_qualified, split_slash};
use crate::mediatek::{
    C05Error, MediatekLimits, MediatekPartition, MediatekPartitionRange, PartitionView, opt_view, partition_views,
};
use crate::text_ops::{ascii_lower, chars_of, first_kept, last_kept_end, lower, lower_char, string_of, trim_spec, white};

verus! {

/// A bounded string: non-empty, at most `max_string_bytes` UTF-8 bytes, without NUL.
pub open spec fn scatter_string_ok(s: Seq<char>, limits: MediatekLimits) -> bool {
    s.len() > 0 && vstd::utf8::encode_utf8(s).len() <= limits.max_string_bytes && !s.contains('\0')
}

/// A path piece that a canonical bundle path may hold: non-empty, not `.` and not `..`.
pub open spec fn piece_ok(p: Seq<char>) -> bool {
    p.len() > 0 && p != seq!['.'] && p != seq!['.', '.']
}

/// The failure of bundle path validation, if any: a bounded string, relative, without
/// backslash or drive prefix, whose `/`-separated pieces are all non-empty, `.`-free and
/// `..`-free.
pub open spec fn bundle_path_fault(s: Seq<char>, limits: MediatekLimits) -> Option<C05Error> {
    if !scatter_string_ok(s, limits) {
        Some(C05Error::InvalidString)
    } else if s.contains('\\') || drive_qualified(s) || exists|k: int|
        0 <= k < split_slash(s).len() && !piece_ok(#[trigger] split_slash(s)[k]) {
        Some(C05Error::InvalidBundlePath)
    } else {
        None
    }
}

/// `s` with surrounding white space removed and then one matching pair of enclosing `"` or `'`
/// quotes removed.
pub open spec fn clean_value_spec(raw: Seq<char>) -> Seq<char> {
    let v = trim_spec(raw);
    if v.len() >= 2 && ((v[0] == '"' && v.last() == '"') || (v[0] == '\'' && v.last() == '\'')) {
        v.subrange(1, v.len() - 1)
    } else {
        v
    }
}

/// `s` without its leading `-` characters.
pub open spec fn strip_dashes(s: Seq<char>) -> Seq<char>
    decreases s.len(),
{
    if s.len() > 0 && s[0] == '-' {
        strip_dashes(s.skip(1))
    } else {
        s
    }
}

/// Whether two texts are equal once ASCII letters are folded to lower case.
pub open spec fn same_ignoring_case(a: Seq<char>, b: Seq<char>) -> bool {
    ascii_lower(a) == ascii_lower(b)
}

/// Value of a run of ASCII digits in base `radix` (10 or 16).
pub open spec fn digits_value(s: Seq<char>, radix: int) -> int
    decreases s.len(),
{
    if s.len() == 0 {
        0
    } else {
        digits_value(s.drop_last(), radix) * radix + digit_of(s.last())
    }
}

/// The value of one hexadecimal digit character.
pub open spec fn digit_of(c: char) -> int {
    let n = c as u32;
    if 48 <= n <= 57 {
        n - 48
    } else if 97 <= n <= 102 {
        n - 87
    } else {
        n - 55
    }
}

/// An ASCII decimal digit.
pub open spec fn is_dec(c: char) -> bool {
    48 <= (c as u32) <= 57
}

/// An ASCII hexadecimal digit.
pub open spec fn is_hex(c: char) -> bool {
    let n = c as u32;
    (48 <= n <= 57) || (97 <= n <= 102) || (65 <= n <= 70)
}

/// A scatter number: decimal digits, or `0x`/`0X` followed by hexadecimal digits, with no
/// sign, whose value fits in 64 bits.
pub open spec fn scatter_number(v: Seq<char>) -> Option<u64> {
    if v.len() == 0 || v[0] == '-' || v[0] == '+' {
        None
    } else if v.len() >= 2 && v[0] == '0' && (v[1] == 'x' || v[1] == 'X') {
        let h = v.skip(2);
        if h.len() == 0 || !(forall|i: int| 0 <= i < h.len() ==> is_hex(#[trigger] h[i])) {
            None
        } else if digits_value(h, 16) > u64::MAX {
            None
        } else {
            Some(digits_value(h, 16) as u64)
        }
    } else if !(forall|i: int| 0 <= i < v.len() ==> is_dec(#[trigger] v[i])) {
        None
    } else if digits_value(v, 10) > u64::MAX {
        None
    } else {
        Some(digits_value(v, 10) as u64)
    }
}

/// A partition record under construction: each known key at most once.
pub ghost struct BuilderView {
    /// Partition index token.
    pub index: Option<Seq<char>>,
    /// Partition name.
    pub name: Option<Seq<char>>,
    /// Referenced path; `Some(None)` for `NONE`.
    pub file_name: Option<Option<Seq<char>>>,
    /// `is_download` flag.
    pub is_download: Option<bool>,
    /// Type token.
    pub image_type: Option<Seq<char>>,
    /// Linear start address.
    pub linear: Option<u64>,
    /// Physical start address.
    pub physical: Option<u64>,
    /// Partition size.
    pub size: Option<u64>,
    /// Region token.
    pub region: Option<Seq<char>>,
    /// Storage token.
    pub storage: Option<Seq<char>>,
}

/// A fresh record opened by `- partition_index: index`.
pub open spec fn opened_builder(index: Seq<char>) -> BuilderView {
    BuilderView {
        index: Some(index),
        name: None,
        file_name: None,
        is_download: None,
        image_type: None,
        linear: None,
        physical: None,
        size: None,
        region: None,
        storage: None,
    }
}

/// Set a string field that must not be set twice.
pub open spec fn set_once(old: Option<Seq<char>>, value: Seq<char>, limits: MediatekLimits) -> Result<
    Seq<char>,
    C05Error,
> {
    if old is Some {
        Err(C05Error::InvalidScatter)
    } else if !scatter_string_ok(value, limits) {
        Err(C05Error::InvalidString)
    } else {
        Ok(value)
    }
}

/// Set a numeric field that must not be set twice.
pub open spec fn set_number_once(old: Option<u64>, value: Seq<char>) -> Result<u64, C05Error> {
    if old is Some {
        Err(C05Error::InvalidScatter)
    } else {
        match scatter_number(value) {
            Some(n) => Ok(n),
            None => Err(C05Error::InvalidNumber),
        }
    }
}

/// Apply one `key: value` line to the open partition record; unknown keys are ignored.
#[verifier::opaque]
pub open spec fn field_spec(b: BuilderView, key: Seq<char>, value: Seq<char>, limits: MediatekLimits) -> Result<
    BuilderView,
    C05Error,
> {
    if key == "partition_name"@ {
        match set_once(b.name, value, limits) {
            Ok(v) => Ok(BuilderView { name: Some(v), ..b }),
            Err(e) => Err(e),
        }
    } else if key == "file_name"@ {
        if b.file_name is Some {
            Err(C05Error::InvalidScatter)
        } else if same_ignoring_case(value, "NONE"@) {
            Ok(BuilderView { file_name: Some(None), ..b })
        } else {
            match bundle_path_fault(value, limits) {
                Some(e) => Err(e),
                None => Ok(BuilderView { file_name: Some(Some(value)), ..b }),
            }
        }
    } else if key == "is_download"@ {
        if b.is_download is Some {
            Err(C05Error::InvalidScatter)
        } else if same_ignoring_case(value, "true"@) {
            Ok(BuilderView { is_download: Some(true), ..b })
        } else if same_ignoring_case(value, "false"@) {
            Ok(BuilderView { is_download: Some(false), ..b })
        } else {
            Err(C05Error::InvalidScatter)
        }
    } else if key == "type"@ {
        match set_once(b.image_type, value, limits) {
            Ok(v) => Ok(BuilderView { image_type: Some(v), ..b }),
            Err(e) => Err(e),
        }
    } else if key == "linear_start_addr"@ {
        match set_number_once(b.linear, value) {
            Ok(n) => Ok(BuilderView { linear: Some(n), ..b }),
            Err(e) => Err(e),
        }
    } else if key == "physical_start_addr"@ {
        match set_number_once(b.physical, value) {
            Ok(n) => Ok(BuilderView { physical: Some(n), ..b }),
            Err(e) => Err(e),
        }
    } else if key == "partition_size"@ {
        match set_number_once(b.size, value) {
            Ok(n) => Ok(BuilderView { size: Some(n), ..b }),
            Err(e) => Err(e),
        }
    } else if key == "region"@ {
        match set_once(b.region, value, limits) {
            Ok(v) => Ok(BuilderView { region: Some(v), ..b }),
            Err(e) => Err(e),
        }
    } else if key == "storage"@ {
        match set_once(b.storage, value, limits) {
            Ok(v) => Ok(BuilderView { storage: Some(v), ..b }),
            Err(e) => Err(e),
        }
    } else {
        Ok(b)
    }
}

/// Close a partition record: every key present and both ranges within 64 bits.
pub open spec fn close_record(ps: Seq<PartitionView>, b: BuilderView, limits: MediatekLimits) -> Result<
    Seq<PartitionView>,
    C05Error,
> {
    if ps.len() >= limits.max_partitions {
        Err(C05Error::TooManyPartitions)
    } else if b.index is None || b.name is None || b.file_name is None || b.is_download is None
        || b.image_type is None || b.linear is None || b.physical is None || b.size is None || b.region is None
        || b.storage is None {
        Err(C05Error::InvalidScatter)
    } else if b.linear->0 + b.size->0 > u64::MAX || b.physical->0 + b.size->0 > u64::MAX {
        Err(C05Error::PartitionRangeOverflow)
    } else {
        Ok(
            ps.push(
                PartitionView {
                    index: b.index->0,
                    name: b.name->0,
                    file_name: b.file_name->0,
                    is_download: b.is_download->0,
                    image_type: b.image_type->0,
                    linear: MediatekPartitionRange {
                        start: b.linear->0,
                        end_exclusive: (b.linear->0 + b.size->0) as u64,
                    },
                    physical: MediatekPartitionRange {
                        start: b.physical->0,
                        end_exclusive: (b.physical->0 + b.size->0) as u64,
                    },
                    region: b.region->0,
                    storage: b.storage->0,
                    linked_size: None,
                    linked_sha256: None,
                },
            ),
        )
    }
}

/// Parser state between lines.
pub ghost struct ScanState {
    /// First `config_version` header value.
    pub config_version: Option<Seq<char>>,
    /// First `platform` header value.
    pub platform: Option<Seq<char>>,
    /// First `storage` header value.
    pub storage: Option<Seq<char>>,
    /// Closed partition records.
    pub partitions: Seq<PartitionView>,
    /// The open partition record.
    pub current: Option<BuilderView>,
    /// Lines read so far.
    pub lines: nat,
}

/// The state before the first line.
pub open spec fn initial_scan() -> ScanState {
    ScanState {
        config_version: None,
        platform: None,
        storage: None,
        partitions: Seq::empty(),
        current: None,
        lines: 0,
    }
}

/// Record a header value; only the first occurrence of a header key counts.
pub open spec fn header_spec(old: Option<Seq<char>>, value: Seq<char>, limits: MediatekLimits) -> Result<
    Option<Seq<char>>,
    C05Error,
> {
    if old is Some {
        Ok(old)
    } else if !scatter_string_ok(value, limits) {
        Err(C05Error::InvalidString)
    } else {
        Ok(Some(value))
    }
}

/// The text that opens a partition record.
pub open spec fn record_marker() -> Seq<char> {
    "- partition_index:"@
}

/// Index of the first `:` in `s`, if any.
pub open spec fn first_colon(s: Seq<char>) -> Option<int> {
    if exists|i: int| 0 <= i < s.len() && s[i] == ':' {
        Some(choose|i: int| 0 <= i < s.len() && s[i] == ':' && forall|j: int| 0 <= j < i ==> s[j] != ':')
    } else {
        None
    }
}

/// The key of a `key: value` line: trimmed, leading dashes removed, trimmed again.
pub open spec fn line_key(line: Seq<char>, colon: int) -> Seq<char> {
    trim_spec(strip_dashes(trim_spec(line.take(colon))))
}

/// Apply one `key: value` line to a state whose line count is already advanced.
#[verifier::opaque]
pub open spec fn keyed_line(st: ScanState, key: Seq<char>, value: Seq<char>, limits: MediatekLimits) -> Result<
    ScanState,
    C05Error,
> {
    match st.current {
        Some(b) => match field_spec(b, key, value, limits) {
            Ok(b2) => Ok(ScanState { current: Some(b2), ..st }),
            Err(e) => Err(e),
        },
        None => if key == "config_version"@ {
            match header_spec(st.config_version, value, limits) {
                Ok(v) => Ok(ScanState { config_version: v, ..st }),
                Err(e) => Err(e),
            }
        } else if key == "platform"@ {
            match header_spec(st.platform, value, limits) {
                Ok(v) => Ok(ScanState { platform: v, ..st }),
                Err(e) => Err(e),
            }
        } else if key == "storage"@ {
            match header_spec(st.storage, value, limits) {
                Ok(v) => Ok(ScanState { storage: v, ..st }),
                Err(e) => Err(e),
            }
        } else {
            Ok(st)
        },
    }
}

/// Open a new partition record, closing the previous one first.
#[verifier::opaque]
pub open spec fn open_record(st: ScanState, value: Seq<char>, limits: MediatekLimits) -> Result<ScanState, C05Error> {
    let closed = match st.current {
        Some(b) => close_record(st.partitions, b, limits),
        None => Ok(st.partitions),
    };
    match closed {
        Err(e) => Err(e),
        Ok(ps) => if ps.len() >= limits.max_partitions {
            Err(C05Error::TooManyPartitions)
        } else if !scatter_string_ok(value, limits) {
            Err(C05Error::InvalidString)
        } else {
            Ok(ScanState { partitions: ps, current: Some(opened_builder(value)), ..st })
        },
    }
}

/// Apply one raw line (already trimmed) to the parser state.
pub open spec fn line_step(st: ScanState, line: Seq<char>, limits: MediatekLimits) -> Result<ScanState, C05Error> {
    let count = st.lines + 1;
    if count > usize::MAX {
        Err(C05Error::AccountingOverflow)
    } else if count > limits.max_lines {
        Err(C05Error::TooManyLines)
    } else {
        let st1 = ScanState { lines: count as nat, ..st };
        if line.len() == 0 || line[0] == '#' {
            Ok(st1)
        } else if line.len() >= record_marker().len() && line.take(record_marker().len() as int) == record_marker() {
            open_record(st1, clean_value_spec(line.skip(record_marker().len() as int)), limits)
        } else {
            match first_colon(line) {
                None => Ok(st1),
                Some(c) => keyed_line(st1, line_key(line, c), clean_value_spec(line.skip(c + 1)), limits),
            }
        }
    }
}

/// The parsed header and partition relationships of a scatter file.
pub ghost struct ScatterView {
    /// Optional config version.
    pub config_version: Option<Seq<char>>,
    /// Platform claim.
    pub platform: Seq<char>,
    /// Storage-family claim.
    pub storage: Seq<char>,
    /// Partition relationships in file order.
    pub partitions: Seq<PartitionView>,
}

/// No two partitions share an index or a name.
pub open spec fn partitions_unique(ps: Seq<PartitionView>) -> bool {
    forall|i: int, j: int| 0 <= i < j < ps.len() ==> ps[i].index != ps[j].index && ps[i].name != ps[j].name
}

/// Close the last record and check the whole file.
pub open spec fn finish_scan(st: ScanState, limits: MediatekLimits) -> Result<ScatterView, C05Error> {
    let closed = match st.current {
        Some(b) => close_record(st.partitions, b, limits),
        None => Ok(st.partitions),
    };
    match closed {
        Err(e) => Err(e),
        Ok(ps) => if ps.len() == 0 || st.platform is None || st.storage is None {
            Err(C05Error::InvalidScatter)
        } else if !partitions_unique(ps) {
            Err(C05Error::DuplicatePartition)
        } else {
            Ok(
                ScatterView {
                    config_version: st.config_version,
                    platform: st.platform->0,
                    storage: st.storage->0,
                    partitions: ps,
                },
            )
        },
    }
}

/// Parse `t` from character `i`, where the current line began at `start`: each `\n` ends a
/// line, and a non-empty remainder after the last `\n` is the final line.
pub open spec fn scan_from(t: Seq<char>, i: int, start: int, st: ScanState, limits: MediatekLimits) -> Result<
    ScatterView,
    C05Error,
>
    decreases t.len() - i,
{
    if i >= t.len() {
        if start < t.len() {
            match line_step(st, trim_spec(t.subrange(start, t.len() as int)), limits) {
                Ok(s2) => finish_scan(s2, limits),
                Err(e) => Err(e),
            }
        } else {
            finish_scan(st, limits)
        }
    } else if t[i] == '\n' {
        match line_step(st, trim_spec(t.subrange(start, i)), limits) {
            Ok(s2) => scan_from(t, i + 1, i + 1, s2, limits),
            Err(e) => Err(e),
        }
    } else {
        scan_from(t, i + 1, start, st, limits)
    }
}

/// The parse of a whole scatter text.
pub open spec fn scatter_spec(t: Seq<char>, limits: MediatekLimits) -> Result<ScatterView, C05Error> {
    scan_from(t, 0, 0, initial_scan(), limits)
}


/// Bounds of `cs[lo..hi]` without its surrounding white space.
pub fn trim_range(cs: &Vec<char>, lo: usize, hi: usize) -> (r: (usize, usize))
    requires
        lo <= hi <= cs@.len(),
    ensures
        lo <= r.0 <= r.1 <= hi,
        cs@.subrange(r.0 as int, r.1 as int) == trim_spec(cs@.subrange(lo as int, hi as int)),
{
    let ghost t = cs@.subrange(lo as int, hi as int);
    let mut a: usize = lo;
    while a < hi && white(cs[a])
        invariant
            lo <= a <= hi <= cs@.len(),
            t == cs@.subrange(lo as int, hi as int),
            first_kept(t, 0) == first_kept(t, a - lo),
        decreases hi - a,
    {
        assert(t[a - lo] == cs@[a as int]);
        a = a + 1;
    }
    assert(a < hi ==> t[a - lo] == cs@[a as int]);
    assert(first_kept(t, a - lo) == a - lo);
    let mut b: usize = hi;
    while b > lo && white(cs[b - 1])
        invariant
            lo <= b <= hi <= cs@.len(),
            t == cs@.subrange(lo as int, hi as int),
            last_kept_end(t, t.len() as int) == last_kept_end(t, b - lo),
        decreases b,
    {
        assert(t[b - 1 - lo] == cs@[b - 1]);
        b = b - 1;
    }
    assert(b > lo ==> t[b - 1 - lo] == cs@[b - 1]);
    assert(last_kept_end(t, b - lo) == b - lo);
    if a < b {
        assert(cs@.subrange(a as int, b as int) =~= t.subrange(a - lo, b - lo));
        (a, b)
    } else {
        assert(cs@.subrange(a as int, a as int) =~= Seq::<char>::empty());
        (a, a)
    }
}

/// Copy of `cs[lo..hi]`.
pub fn copy_range(cs: &Vec<char>, lo: usize, hi: usize) -> (r: Vec<char>)
    requires
        lo <= hi <= cs@.len(),
    ensures
        r@ == cs@.subrange(lo as int, hi as int),
{
    let mut out: Vec<char> = Vec::new();
    let mut k: usize = lo;
    while k < hi
        invariant
            lo <= k <= hi <= cs@.len(),
            out@ == cs@.subrange(lo as int, k as int),
        decreases hi - k,
    {
        out.push(cs[k]);
        assert(cs@.subrange(lo as int, k as int + 1) =~= cs@.subrange(lo as int, k as int).push(cs@[k as int]));
        k = k + 1;
    }
    out
}

/// The cleaned value of `cs[lo..hi]`: trimmed, with one pair of enclosing quotes removed.
pub fn clean_value(cs: &Vec<char>, lo: usize, hi: usize) -> (r: Vec<char>)
    requires
        lo <= hi <= cs@.len(),
    ensures
        r@ == clean_value_spec(cs@.subrange(lo as int, hi as int)),
{
    let (a, b) = trim_range(cs, lo, hi);
    let ghost v = cs@.subrange(a as int, b as int);
    if b - a >= 2 && ((cs[a] == '"' && cs[b - 1] == '"') || (cs[a] == '\'' && cs[b - 1] == '\'')) {
        assert(v[0] == cs@[a as int] && v.last() == cs@[b - 1]);
        let r = copy_range(cs, a + 1, b - 1);
        assert(r@ =~= v.subrange(1, v.len() - 1));
        r
    } else {
        assert(b - a >= 2 ==> v[0] == cs@[a as int] && v.last() == cs@[b - 1]);
        copy_range(cs, a, b)
    }
}

/// `s` without its leading dashes.
fn strip_dashes_exec(s: &Vec<char>) -> (r: Vec<char>)
    ensures
        r@ == strip_dashes(s@),
{
    let mut k: usize = 0;
    assert(s@.skip(0) =~= s@);
    while k < s.len() && s[k] == '-'
        invariant
            k <= s@.len(),
            strip_dashes(s@) == strip_dashes(s@.skip(k as int)),
        decreases s.len() - k,
    {
        assert(s@.skip(k as int).skip(1) =~= s@.skip(k as int + 1));
        k = k + 1;
    }
    assert(k < s@.len() ==> s@.skip(k as int)[0] == s@[k as int]);
    let r = copy_range(s, k, s.len());
    assert(r@ =~= s@.skip(k as int));
    r
}

/// Whether `v` equals the literal `lit`.
pub fn equals_text(v: &Vec<char>, lit: &str) -> (r: bool)
    ensures
        r == (v@ == lit@),
{
    let w = chars_of(lit);
    if v.len() != w.len() {
        return false;
    }
    let mut k: usize = 0;
    while k < v.len()
        invariant
            k <= v@.len() == w@.len(),
            w@ == lit@,
            forall|j: int| 0 <= j < k ==> v@[j] == w@[j],
        decreases v.len() - k,
    {
        if v[k] != w[k] {
            return false;
        }
        k = k + 1;
    }
    assert(v@ =~= w@);
    true
}

/// Whether `v` equals the literal `lit` once ASCII letters are folded to lower case.
pub fn equals_ignoring_case(v: &Vec<char>, lit: &str) -> (r: bool)
    ensures
        r == same_ignoring_case(v@, lit@),
{
    let w = chars_of(lit);
    if v.len() != w.len() {
        assert(ascii_lower(v@).len() != ascii_lower(w@).len());
        return false;
    }
    let mut k: usize = 0;
    while k < v.len()
        invariant
            k <= v@.len() == w@.len(),
            w@ == lit@,
            forall|j: int| 0 <= j < k ==> lower_char(v@[j]) == lower_char(w@[j]),
        decreases v.len() - k,
    {
        if lower(v[k]) != lower(w[k]) {
            assert(ascii_lower(v@)[k as int] != ascii_lower(w@)[k as int]);
            return false;
        }
        k = k + 1;
    }
    assert(ascii_lower(v@) =~= ascii_lower(w@));
    true
}

/// Whether `v` is a bounded string; the string itself when it is.
pub fn bounded_string(v: &Vec<char>, limits: MediatekLimits) -> (r: Result<String, C05Error>)
    ensures
        r is Ok <==> scatter_string_ok(v@, limits),
        r matches Ok(s) ==> s@ == v@,
        r matches Err(e) ==> e is InvalidString,
{
    let s = string_of(v.as_slice());
    let n = s.as_str().as_bytes().len();
    if v.len() == 0 || n > limits.max_string_bytes {
        return Err(C05Error::InvalidString);
    }
    let mut k: usize = 0;
    while k < v.len()
        invariant
            k <= v@.len(),
            forall|j: int| 0 <= j < k ==> v@[j] != '\0',
        decreases v.len() - k,
    {
        if v[k] == '\0' {
            assert(v@.contains('\0'));
            return Err(C05Error::InvalidString);
        }
        k = k + 1;
    }
    Ok(s)
}

/// The pieces of `v` split at every `/`.
pub(crate) fn slash_pieces(v: &Vec<char>) -> (r: Vec<Vec<char>>)
    ensures
        r@.map_values(|p: Vec<char>| p@) == split_slash(v@),
{
    let n = v.len();
    let mut pieces: Vec<Vec<char>> = Vec::new();
    let mut current: Vec<char> = Vec::new();
    let mut k: usize = 0;
    assert(v@.take(0) =~= Seq::<char>::empty());
    while k < n
        invariant
            k <= n == v@.len(),
            split_slash(v@.take(k as int)) == pieces@.map_values(|p: Vec<char>| p@).push(current@),
        decreases n - k,
    {
        let ghost before = pieces@.map_values(|p: Vec<char>| p@);
        assert(v@.take(k as int + 1).drop_last() =~= v@.take(k as int));
        let c = v[k];
        if c == '/' {
            let mut done: Vec<char> = Vec::new();
            std::mem::swap(&mut done, &mut current);
            pieces.push(done);
            assert(pieces@.map_values(|p: Vec<char>| p@) =~= before.push(done@));
        } else {
            let ghost old_cur = current@;
            current.push(c);
            assert(before.push(old_cur).update(before.len() as int, old_cur.push(c)) =~= before.push(current@));
        }
        k = k + 1;
    }
    pieces.push(current);
    assert(v@.take(n as int) =~= v@);
    pieces
}

/// Whether a path piece is non-empty and neither `.` nor `..`.
pub(crate) fn piece_is_ok(p: &Vec<char>) -> (r: bool)
    ensures
        r == piece_ok(p@),
{
    if p.len() == 0 {
        return false;
    }
    if p.len() == 1 && p[0] == '.' {
        assert(p@ =~= seq!['.']);
        return false;
    }
    if p.len() == 2 && p[0] == '.' && p[1] == '.' {
        assert(p@ =~= seq!['.', '.']);
        return false;
    }
    assert(p@ != seq!['.'] ==> true);
    assert(p@.len() == 1 ==> p@ != seq!['.'] || p@[0] == '.');
    assert(p@.len() == 2 ==> p@ != seq!['.', '.'] || (p@[0] == '.' && p@[1] == '.'));
    true
}

/// Validate a canonical relative bundle path; the path itself when valid.
pub fn bundle_path(v: &Vec<char>, limits: MediatekLimits) -> (r: Result<String, C05Error>)
    ensures
        match r {
            Ok(s) => bundle_path_fault(v@, limits) is None && s@ == v@,
            Err(e) => bundle_path_fault(v@, limits) == Some(e),
        },
{
    let s = match bounded_string(v, limits) {
        Ok(s) => s,
        Err(e) => {
            return Err(e);
        },
    };
    assert(scatter_string_ok(v@, limits));
    let n = v.len();
    let mut k: usize = 0;
    while k < n
        invariant
            k <= n == v@.len(),
            scatter_string_ok(v@, limits),
            forall|j: int| 0 <= j < k ==> v@[j] != '\\',
        decreases n - k,
    {
        if v[k] == '\\' {
            assert(v@.contains('\\'));
            return Err(C05Error::InvalidBundlePath);
        }
        k = k + 1;
    }
    assert(!v@.contains('\\'));
    let c0 = v[0] as u32;
    assert(c0 == v@[0] as u32);
    if n >= 2 && ((65 <= c0 && c0 <= 90) || (97 <= c0 && c0 <= 122)) && v[1] == ':' {
        return Err(C05Error::InvalidBundlePath);
    }
    let pieces = slash_pieces(v);
    let ghost ps = split_slash(v@);
    let mut j: usize = 0;
    while j < pieces.len()
        invariant
            j <= pieces@.len(),
            ps == pieces@.map_values(|p: Vec<char>| p@),
            ps == split_slash(v@),
            scatter_string_ok(v@, limits),
            !v@.contains('\\'),
            !drive_qualified(v@),
            forall|i: int| 0 <= i < j ==> piece_ok(#[trigger] ps[i]),
        decreases pieces.len() - j,
    {
        assert(ps[j as int] == pieces@[j as int]@);
        if !piece_is_ok(&pieces[j]) {
            assert(!piece_ok(split_slash(v@)[j as int]));
            return Err(C05Error::InvalidBundlePath);
        }
        j = j + 1;
    }
    Ok(s)
}


proof fn lemma_digits_nonneg(s: Seq<char>, radix: int)
    requires
        radix >= 1,
        forall|i: int| 0 <= i < s.len() ==> is_hex(#[trigger] s[i]),
    ensures
        digits_value(s, radix) >= 0,
    decreases s.len(),
{
    if s.len() > 0 {
        lemma_digits_nonneg(s.drop_last(), radix);
        let v = digits_value(s.drop_last(), radix);
        assert(v * radix >= 0) by (nonlinear_arith)
            requires
                v >= 0,
                radix >= 1,
        ;
        assert(is_hex(s[s.len() - 1]));
    }
}

proof fn lemma_digits_prefix(s: Seq<char>, radix: int, k: int)
    requires
        radix >= 1,
        0 <= k <= s.len(),
        forall|i: int| 0 <= i < s.len() ==> is_hex(#[trigger] s[i]),
    ensures
        digits_value(s.take(k), radix) <= digits_value(s, radix),
    decreases s.len(),
{
    if k == s.len() {
        assert(s.take(k) =~= s);
    } else {
        let p = s.drop_last();
        assert(forall|i: int| 0 <= i < p.len() ==> is_hex(#[trigger] p[i]) && p[i] == s[i]);
        lemma_digits_prefix(p, radix, k);
        assert(p.take(k) =~= s.take(k));
        lemma_digits_nonneg(p, radix);
        let v = digits_value(p, radix);
        assert(v * radix >= v) by (nonlinear_arith)
            requires
                v >= 0,
                radix >= 1,
        ;
        assert(is_hex(s[s.len() - 1]));
    }
}

fn digit_value(c: char) -> (d: u64)
    requires
        is_hex(c),
    ensures
        d == digit_of(c),
        d < 16,
{
    let n = c as u32;
    if 48 <= n && n <= 57 {
        (n - 48) as u64
    } else if 97 <= n && n <= 102 {
        (n - 87) as u64
    } else {
        (n - 55) as u64
    }
}

fn digits_exec(h: &Vec<char>, radix: u64) -> (r: Option<u64>)
    requires
        radix == 10 || radix == 16,
        forall|i: int| 0 <= i < h@.len() ==> is_hex(#[trigger] h@[i]),
    ensures
        r == (if digits_value(h@, radix as int) > u64::MAX {
            None
        } else {
            Some(digits_value(h@, radix as int) as u64)
        }),
{
    let mut acc: u64 = 0;
    let mut k: usize = 0;
    assert(h@.take(0) =~= Seq::<char>::empty());
    while k < h.len()
        invariant
            k <= h@.len(),
            radix == 10 || radix == 16,
            forall|i: int| 0 <= i < h@.len() ==> is_hex(#[trigger] h@[i]),
            acc == digits_value(h@.take(k as int), radix as int),
        decreases h.len() - k,
    {
        let d = digit_value(h[k]);
        assert(h@.take(k as int + 1).drop_last() =~= h@.take(k as int));
        assert(h@.take(k as int + 1).last() == h@[k as int]);
        let m = acc.checked_mul(radix);
        if m.is_none() {
            proof {
                lemma_digits_prefix(h@, radix as int, k as int + 1);
            }
            return None;
        }
        let m = m.unwrap();
        let a = m.checked_add(d);
        if a.is_none() {
            proof {
                lemma_digits_prefix(h@, radix as int, k as int + 1);
            }
            return None;
        }
        acc = a.unwrap();
        k = k + 1;
    }
    assert(h@.take(h@.len() as int) =~= h@);
    Some(acc)
}

/// Parse a scatter number: decimal, or hexadecimal after `0x`/`0X`.
pub fn parse_number(v: &Vec<char>) -> (r: Option<u64>)
    ensures
        r == scatter_number(v@),
{
    if v.len() == 0 || v[0] == '-' || v[0] == '+' {
        return None;
    }
    if v.len() >= 2 && v[0] == '0' && (v[1] == 'x' || v[1] == 'X') {
        let h = copy_range(v, 2, v.len());
        assert(h@ =~= v@.skip(2));
        if h.len() == 0 {
            return None;
        }
        let mut k: usize = 0;
        while k < h.len()
            invariant
                k <= h@.len(),
                h@ == v@.skip(2),
                h@.len() > 0,
                v@.len() >= 2 && v@[0] == '0' && (v@[1] == 'x' || v@[1] == 'X'),
                forall|i: int| 0 <= i < k ==> is_hex(#[trigger] h@[i]),
            decreases h.len() - k,
        {
            let n = h[k] as u32;
            if !((48 <= n && n <= 57) || (97 <= n && n <= 102) || (65 <= n && n <= 70)) {
                assert(!is_hex(h@[k as int]));
                return None;
            }
            k = k + 1;
        }
        return digits_exec(&h, 16);
    }
    let mut k: usize = 0;
    while k < v.len()
        invariant
            k <= v@.len(),
            v@.len() > 0 && v@[0] != '-' && v@[0] != '+',
            !(v@.len() >= 2 && v@[0] == '0' && (v@[1] == 'x' || v@[1] == 'X')),
            forall|i: int| 0 <= i < k ==> is_dec(#[trigger] v@[i]),
        decreases v.len() - k,
    {
        let n = v[k] as u32;
        if !(48 <= n && n <= 57) {
            assert(!is_dec(v@[k as int]));
            return None;
        }
        k = k + 1;
    }
    assert(forall|i: int| 0 <= i < v@.len() ==> is_hex(#[trigger] v@[i]) <== is_dec(v@[i]));
    digits_exec(v, 10)
}


/// A partition record under construction.
struct PartitionBuilder {
    index: Option<String>,
    name: Option<String>,
    file_name: Option<Option<String>>,
    is_download: Option<bool>,
    image_type: Option<String>,
    linear: Option<u64>,
    physical: Option<u64>,
    size: Option<u64>,
    region: Option<String>,
    storage: Option<String>,
}

/// View of an optional referenced path.
spec fn file_view(o: Option<Option<String>>) -> Option<Option<Seq<char>>> {
    match o {
        Some(Some(s)) => Some(Some(s@)),
        Some(None) => Some(None),
        None => None,
    }
}

impl View for PartitionBuilder {
    type V = BuilderView;

    closed spec fn view(&self) -> BuilderView {
        BuilderView {
            index: opt_view(self.index),
            name: opt_view(self.name),
            file_name: file_view(self.file_name),
            is_download: self.is_download,
            image_type: opt_view(self.image_type),
            linear: self.linear,
            physical: self.physical,
            size: self.size,
            region: opt_view(self.region),
            storage: opt_view(self.storage),
        }
    }
}

fn set_string(slot: &mut Option<String>, value: &Vec<char>, limits: MediatekLimits) -> (r: Result<(), C05Error>)
    ensures
        match set_once(opt_view(*old(slot)), value@, limits) {
            Ok(v) => r is Ok && opt_view(*final(slot)) == Some(v),
            Err(e) => r == Err::<(), C05Error>(e),
        },
{
    if slot.is_some() {
        return Err(C05Error::InvalidScatter);
    }
    match bounded_string(value, limits) {
        Ok(s) => {
            *slot = Some(s);
            Ok(())
        },
        Err(_) => Err(C05Error::InvalidString),
    }
}

fn set_number(slot: &mut Option<u64>, value: &Vec<char>) -> (r: Result<(), C05Error>)
    ensures
        match set_number_once(*old(slot), value@) {
            Ok(n) => r is Ok && *final(slot) == Some(n),
            Err(e) => r == Err::<(), C05Error>(e),
        },
{
    if slot.is_some() {
        return Err(C05Error::InvalidScatter);
    }
    match parse_number(value) {
        Some(n) => {
            *slot = Some(n);
            Ok(())
        },
        None => Err(C05Error::InvalidNumber),
    }
}

fn apply_field(b: &mut PartitionBuilder, key: &Vec<char>, value: &Vec<char>, limits: MediatekLimits) -> (r: Result<
    (),
    C05Error,
>)
    ensures
        match field_spec(old(b)@, key@, value@, limits) {
            Ok(b2) => r is Ok && final(b)@ == b2,
            Err(e) => r == Err::<(), C05Error>(e),
        },
{
    reveal(field_spec);
    if equals_text(key, "partition_name") {
        set_string(&mut b.name, value, limits)
    } else if equals_text(key, "file_name") {
        if b.file_name.is_some() {
            return Err(C05Error::InvalidScatter);
        }
        if equals_ignoring_case(value, "NONE") {
            b.file_name = Some(None);
            return Ok(());
        }
        match bundle_path(value, limits) {
            Ok(p) => {
                b.file_name = Some(Some(p));
                Ok(())
            },
            Err(e) => Err(e),
        }
    } else if equals_text(key, "is_download") {
        if b.is_download.is_some() {
            return Err(C05Error::InvalidScatter);
        }
        if equals_ignoring_case(value, "true") {
            b.is_download = Some(true);
            Ok(())
        } else if equals_ignoring_case(value, "false") {
            b.is_download = Some(false);
            Ok(())
        } else {
            Err(C05Error::InvalidScatter)
        }
    } else if equals_text(key, "type") {
        set_string(&mut b.image_type, value, limits)
    } else if equals_text(key, "linear_start_addr") {
        set_number(&mut b.linear, value)
    } else if equals_text(key, "physical_start_addr") {
        set_number(&mut b.physical, value)
    } else if equals_text(key, "partition_size") {
        set_number(&mut b.size, value)
    } else if equals_text(key, "region") {
        set_string(&mut b.region, value, limits)
    } else if equals_text(key, "storage") {
        set_string(&mut b.storage, value, limits)
    } else {
        Ok(())
    }
}

fn close(ps: &mut Vec<MediatekPartition>, b: PartitionBuilder, limits: MediatekLimits) -> (r: Result<(), C05Error>)
    ensures
        match close_record(partition_views(old(ps)@), b@, limits) {
            Ok(v) => r is Ok && partition_views(final(ps)@) == v,
            Err(e) => r == Err::<(), C05Error>(e),
        },
{
    if ps.len() >= limits.max_partitions {
        return Err(C05Error::TooManyPartitions);
    }
    let ghost bv = b@;
    let PartitionBuilder { index, name, file_name, is_download, image_type, linear, physical, size, region, storage } =
        b;
    if index.is_none() || name.is_none() || file_name.is_none() || is_download.is_none() || image_type.is_none()
        || linear.is_none() || physical.is_none() || size.is_none() || region.is_none() || storage.is_none() {
        return Err(C05Error::InvalidScatter);
    }
    let linear = linear.unwrap();
    let physical = physical.unwrap();
    let size = size.unwrap();
    let le = linear.checked_add(size);
    let pe = physical.checked_add(size);
    if le.is_none() || pe.is_none() {
        return Err(C05Error::PartitionRangeOverflow);
    }
    let p = MediatekPartition {
        partition_index: index.unwrap(),
        partition_name: name.unwrap(),
        file_name: file_name.unwrap(),
        is_download: is_download.unwrap(),
        image_type: image_type.unwrap(),
        linear_range: MediatekPartitionRange { start: linear, end_exclusive: le.unwrap() },
        physical_range: MediatekPartitionRange { start: physical, end_exclusive: pe.unwrap() },
        region: region.unwrap(),
        storage: storage.unwrap(),
        linked_component_size: None,
        linked_component_sha256: None,
    };
    let ghost before = partition_views(ps@);
    ps.push(p);
    proof {
        assert(partition_views(ps@) =~= before.push(p@));
        match bv.file_name {
            Some(Some(x)) => {},
            _ => {},
        }
    }
    Ok(())
}


/// Parser state between lines.
struct ScanExec {
    config_version: Option<String>,
    platform: Option<String>,
    storage: Option<String>,
    partitions: Vec<MediatekPartition>,
    current: Option<PartitionBuilder>,
    lines: usize,
}

spec fn builder_opt_view(o: Option<PartitionBuilder>) -> Option<BuilderView> {
    match o {
        Some(b) => Some(b@),
        None => None,
    }
}

impl View for ScanExec {
    type V = ScanState;

    closed spec fn view(&self) -> ScanState {
        ScanState {
            config_version: opt_view(self.config_version),
            platform: opt_view(self.platform),
            storage: opt_view(self.storage),
            partitions: partition_views(self.partitions@),
            current: builder_opt_view(self.current),
            lines: self.lines as nat,
        }
    }
}

fn set_header(slot: &mut Option<String>, value: &Vec<char>, limits: MediatekLimits) -> (r: Result<(), C05Error>)
    ensures
        match header_spec(opt_view(*old(slot)), value@, limits) {
            Ok(v) => r is Ok && opt_view(*final(slot)) == v,
            Err(e) => r == Err::<(), C05Error>(e),
        },
{
    if slot.is_some() {
        return Ok(());
    }
    match bounded_string(value, limits) {
        Ok(s) => {
            *slot = Some(s);
            Ok(())
        },
        Err(_) => Err(C05Error::InvalidString),
    }
}

fn first_colon_exec(line: &Vec<char>) -> (r: Option<usize>)
    ensures
        match r {
            Some(k) => first_colon(line@) == Some(k as int),
            None => first_colon(line@) is None,
        },
        r matches Some(k) ==> k < line@.len(),
{
    let mut k: usize = 0;
    while k < line.len()
        invariant
            k <= line@.len(),
            forall|j: int| 0 <= j < k ==> line@[j] != ':',
        decreases line.len() - k,
    {
        if line[k] == ':' {
            let ghost c = choose|i: int| 0 <= i < line@.len() && line@[i] == ':' && forall|j: int| 0 <= j < i ==> line@[j] != ':';
            assert(0 <= k < line@.len() && line@[k as int] == ':' && forall|j: int| 0 <= j < k ==> line@[j] != ':');
            assert(c == k) by {
                if c < k {
                    assert(line@[c] != ':');
                } else if c > k {
                    assert(line@[k as int] != ':');
                }
            }
            return Some(k);
        }
        k = k + 1;
    }
    None
}

fn starts_with_marker(line: &Vec<char>) -> (r: bool)
    ensures
        r == (line@.len() >= record_marker().len() && line@.take(record_marker().len() as int) == record_marker()),
{
    let m = chars_of("- partition_index:");
    if line.len() < m.len() {
        return false;
    }
    let mut k: usize = 0;
    while k < m.len()
        invariant
            k <= m@.len() <= line@.len(),
            m@ == record_marker(),
            forall|j: int| 0 <= j < k ==> line@[j] == m@[j],
        decreases m.len() - k,
    {
        if line[k] != m[k] {
            assert(line@.take(m@.len() as int)[k as int] != m@[k as int]);
            return false;
        }
        k = k + 1;
    }
    assert(line@.take(m@.len() as int) =~= m@);
    true
}

fn open_line(st: &mut ScanExec, line: &Vec<char>, limits: MediatekLimits) -> (r: Result<(), C05Error>)
    requires
        line@.len() >= record_marker().len(),
    ensures
        match open_record(old(st)@, clean_value_spec(line@.skip(record_marker().len() as int)), limits) {
            Ok(s2) => r is Ok && final(st)@ == s2,
            Err(e) => r == Err::<(), C05Error>(e),
        },
{
    reveal(open_record);
    let ml = chars_of("- partition_index:").len();
    let value = clean_value(line, ml, line.len());
    assert(line@.subrange(ml as int, line@.len() as int) =~= line@.skip(record_marker().len() as int));
    let mut cur: Option<PartitionBuilder> = None;
    std::mem::swap(&mut cur, &mut st.current);
    match cur {
        Some(bld) => {
            match close(&mut st.partitions, bld, limits) {
                Ok(()) => {},
                Err(e) => {
                    return Err(e);
                },
            }
        },
        None => {},
    }
    if st.partitions.len() >= limits.max_partitions {
        return Err(C05Error::TooManyPartitions);
    }
    let idx = match bounded_string(&value, limits) {
        Ok(x) => x,
        Err(_) => {
            return Err(C05Error::InvalidString);
        },
    };
    st.current = Some(
        PartitionBuilder {
            index: Some(idx),
            name: None,
            file_name: None,
            is_download: None,
            image_type: None,
            linear: None,
            physical: None,
            size: None,
            region: None,
            storage: None,
        },
    );
    Ok(())
}

#[verifier::rlimit(40)]
fn keyed(st: &mut ScanExec, line: &Vec<char>, c: usize, limits: MediatekLimits) -> (r: Result<(), C05Error>)
    requires
        c < line@.len(),
    ensures
        match keyed_line(old(st)@, line_key(line@, c as int), clean_value_spec(line@.skip(c + 1)), limits) {
            Ok(s2) => r is Ok && final(st)@ == s2,
            Err(e) => r == Err::<(), C05Error>(e),
        },
{
    reveal(keyed_line);
    let n = line.len();
    let (a1, b1) = trim_range(line, 0, c);
    let k1 = copy_range(line, a1, b1);
    assert(line@.subrange(0, c as int) =~= line@.take(c as int));
    let k2 = strip_dashes_exec(&k1);
    let (a2, b2) = trim_range(&k2, 0, k2.len());
    let key = copy_range(&k2, a2, b2);
    assert(k2@.subrange(0, k2@.len() as int) =~= k2@);
    let value = clean_value(line, c + 1, line.len());
    assert(line@.subrange(c + 1, line@.len() as int) =~= line@.skip(c + 1));
    assert(key@ == line_key(line@, c as int));
    let mut cur: Option<PartitionBuilder> = None;
    std::mem::swap(&mut cur, &mut st.current);
    match cur {
        Some(mut bld) => {
            let res = apply_field(&mut bld, &key, &value, limits);
            st.current = Some(bld);
            res
        },
        None => {
            if equals_text(&key, "config_version") {
                set_header(&mut st.config_version, &value, limits)
            } else if equals_text(&key, "platform") {
                set_header(&mut st.platform, &value, limits)
            } else if equals_text(&key, "storage") {
                set_header(&mut st.storage, &value, limits)
            } else {
                Ok(())
            }
        },
    }
}

#[verifier::rlimit(40)]
fn apply_line(st: &mut ScanExec, cs: &Vec<char>, lo: usize, hi: usize, limits: MediatekLimits) -> (r: Result<
    (),
    C05Error,
>)
    requires
        lo <= hi <= cs@.len(),
    ensures
        match line_step(old(st)@, trim_spec(cs@.subrange(lo as int, hi as int)), limits) {
            Ok(s2) => r is Ok && final(st)@ == s2,
            Err(e) => r == Err::<(), C05Error>(e),
        },
{
    let (a, b) = trim_range(cs, lo, hi);
    let line = copy_range(cs, a, b);
    if st.lines == usize::MAX {
        return Err(C05Error::AccountingOverflow);
    }
    let count = st.lines + 1;
    if count > limits.max_lines {
        return Err(C05Error::TooManyLines);
    }
    st.lines = count;
    assert(st@ == ScanState { lines: count as nat, ..old(st)@ });
    assert(line@ == trim_spec(cs@.subrange(lo as int, hi as int)));
    if line.len() == 0 || line[0] == '#' {
        return Ok(());
    }
    if starts_with_marker(&line) {
        return open_line(st, &line, limits);
    }
    let ghost mid = st@;
    assert(!(line@.len() == 0 || line@[0] == '#'));
    match first_colon_exec(&line) {
        Some(c) => {
            assert(line_step(old(st)@, line@, limits) == keyed_line(
                mid,
                line_key(line@, c as int),
                clean_value_spec(line@.skip(c + 1)),
                limits,
            ));
            keyed(st, &line, c, limits)
        },
        None => {
            assert(line_step(old(st)@, line@, limits) == Ok::<ScanState, C05Error>(mid));
            Ok(())
        },
    }
}


/// The parsed header and partition relationships of a scatter file.
pub struct ParsedScatter {
    /// Optional config version.
    pub config_version: Option<String>,
    /// Platform claim.
    pub platform: String,
    /// Storage-family claim.
    pub storage: String,
    /// Partition relationships in file order.
    pub partitions: Vec<MediatekPartition>,
}

impl View for ParsedScatter {
    type V = ScatterView;

    open spec fn view(&self) -> ScatterView {
        ScatterView {
            config_version: opt_view(self.config_version),
            platform: self.platform@,
            storage: self.storage@,
            partitions: partition_views(self.partitions@),
        }
    }
}

fn check_unique(ps: &Vec<MediatekPartition>) -> (r: bool)
    ensures
        r == partitions_unique(partition_views(ps@)),
{
    let ghost pv = partition_views(ps@);
    let n = ps.len();
    let mut i: usize = 0;
    while i < n
        invariant
            i <= n == ps@.len(),
            pv == partition_views(ps@),
            forall|a: int, b: int| 0 <= a < i && a < b < n ==> pv[a].index != pv[b].index && pv[a].name != pv[b].name,
        decreases n - i,
    {
        let mut j: usize = i + 1;
        while j < n
            invariant
                i < n == ps@.len(),
                i + 1 <= j <= n,
                pv == partition_views(ps@),
                forall|a: int, b: int| 0 <= a < i && a < b < n ==> pv[a].index != pv[b].index && pv[a].name != pv[b].name,
                forall|b: int| i < b < j ==> pv[i as int].index != pv[b].index && pv[i as int].name != pv[b].name,
            decreases n - j,
        {
            assert(pv[i as int] == ps@[i as int]@ && pv[j as int] == ps@[j as int]@);
            if ps[i].partition_index == ps[j].partition_index || ps[i].partition_name == ps[j].partition_name {
                assert(!partitions_unique(pv));
                return false;
            }
            j = j + 1;
        }
        i = i + 1;
    }
    true
}

fn finish(st: ScanExec, limits: MediatekLimits) -> (r: Result<ParsedScatter, C05Error>)
    ensures
        match finish_scan(st@, limits) {
            Ok(v) => r matches Ok(p) && p@ == v,
            Err(e) => r == Err::<ParsedScatter, C05Error>(e),
        },
{
    let ghost sv = st@;
    let ScanExec { config_version, platform, storage, mut partitions, current, lines } = st;
    match current {
        Some(b) => {
            match close(&mut partitions, b, limits) {
                Ok(()) => {},
                Err(e) => {
                    return Err(e);
                },
            }
        },
        None => {},
    }
    if partitions.len() == 0 || platform.is_none() || storage.is_none() {
        return Err(C05Error::InvalidScatter);
    }
    if !check_unique(&partitions) {
        return Err(C05Error::DuplicatePartition);
    }
    Ok(ParsedScatter { config_version, platform: platform.unwrap(), storage: storage.unwrap(), partitions })
}

/// Parse a scatter text given as characters.
pub fn parse_scatter(cs: &Vec<char>, limits: MediatekLimits) -> (r: Result<ParsedScatter, C05Error>)
    ensures
        match scatter_spec(cs@, limits) {
            Ok(v) => r matches Ok(p) && p@ == v,
            Err(e) => r == Err::<ParsedScatter, C05Error>(e),
        },
{
    let mut st = ScanExec {
        config_version: None,
        platform: None,
        storage: None,
        partitions: Vec::new(),
        current: None,
        lines: 0,
    };
    assert(partition_views(st.partitions@) =~= Seq::<PartitionView>::empty());
    assert(st@ == initial_scan());
    let n = cs.len();
    let mut start: usize = 0;
    let mut i: usize = 0;
    while i < n
        invariant
            start <= i <= n == cs@.len(),
            scan_from(cs@, i as int, start as int, st@, limits) == scatter_spec(cs@, limits),
        decreases n - i,
    {
        if cs[i] == '\n' {
            match apply_line(&mut st, cs, start, i, limits) {
                Ok(()) => {},
                Err(e) => {
                    return Err(e);
                },
            }
            start = i + 1;
        }
        i = i + 1;
    }
    if start < n {
        match apply_line(&mut st, cs, start, n, limits) {
            Ok(()) => {},
            Err(e) => {
                return Err(e);
            },
        }
    }
    finish(st, limits)
}

} // verus!
