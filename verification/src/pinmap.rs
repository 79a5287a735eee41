//! Assigning the pins of peripheral modules to the FPGA board's ports.
//!
//! Module and port descriptions come in as CSV text whose second column
//! names a port pin like `pmod3_7`: a port index and one of the eight
//! signal pins `1, 2, 3, 4, 7, 8, 9, 10`.  Modules are laid over the
//! available ports in order (or in reverse), and every named module
//! signal is paired with the FPGA pin location of the port pin under it,
//! ready to be written out as placement constraints.

use vstd::prelude::*;
use vstd::string::StrSliceExecFns;
use vstd::string::StringExecFns;

verus! {

/// Everything that can go wrong between the CSV text and the finished
/// pin map.
#[derive(Clone, Copy, Debug, PartialEq, Eq, Structural)]
pub enum PinMapError {
    /// A port pin name does not have the `pmod<index>_<pin>` shape.
    InvalidPinName,
    /// The port index after `pmod` does not fit a machine word.
    InvalidPinIndex,
    /// The pin number is not one of the eight signal pins.
    InvalidPinNumber,
    /// The port index is beyond the highest supported port.
    PinIndexOutOfRange,
    /// The CSV text itself could not be parsed.
    MalformedCsv,
    /// A CSV record is missing its second column.
    ShortRow,
    /// A port leaves one of its eight pins without an FPGA location.
    UndefinedPin { port: usize, pin: usize },
    /// The modules ask for more ports than the board defines.
    TooFewPorts,
}

/// A port pin name, decoded: the port's index and the signal pin number.
#[derive(Clone, Copy, Debug, PartialEq, Eq, Structural)]
pub struct PmodIndexAndPin {
    pub index: usize,
    pub pin: usize,
}

/// The highest number of ports a board definition may name.
pub const MAX_PMOD_PORTS: usize = 20;

/// Which of the eight pin slots a signal pin number occupies: the pins
/// are numbered `1, 2, 3, 4` and `7, 8, 9, 10`, in that order.
pub open spec fn spec_pin_slot(pin: int) -> int {
    if pin == 1 {
        0
    } else if pin == 2 {
        1
    } else if pin == 3 {
        2
    } else if pin == 4 {
        3
    } else if pin == 7 {
        4
    } else if pin == 8 {
        5
    } else if pin == 9 {
        6
    } else if pin == 10 {
        7
    } else {
        -1
    }
}

/// The signal pin number living in a slot (the inverse of
/// `spec_pin_slot`).
pub open spec fn spec_slot_pin(slot: int) -> int {
    if slot == 0 {
        1
    } else if slot == 1 {
        2
    } else if slot == 2 {
        3
    } else if slot == 3 {
        4
    } else if slot == 4 {
        7
    } else if slot == 5 {
        8
    } else if slot == 6 {
        9
    } else if slot == 7 {
        10
    } else {
        -1
    }
}

/// Which pin slot a signal pin number occupies, or `None` for a number
/// that is no signal pin.
pub fn pin_slot(pin: usize) -> (r: Option<usize>)
    ensures
        spec_pin_slot(pin as int) >= 0 ==> r == Some(spec_pin_slot(pin as int) as usize),
        spec_pin_slot(pin as int) < 0 ==> r is None,
{
    match pin {
        1 => Some(0),
        2 => Some(1),
        3 => Some(2),
        4 => Some(3),
        7 => Some(4),
        8 => Some(5),
        9 => Some(6),
        10 => Some(7),
        _ => None,
    }
}

/// The signal pin number living in a slot.
pub fn slot_pin(slot: usize) -> (r: usize)
    requires
        slot < 8,
    ensures
        r as int == spec_slot_pin(slot as int),
{
    match slot {
        0 => 1,
        1 => 2,
        2 => 3,
        3 => 4,
        4 => 7,
        5 => 8,
        6 => 9,
        _ => 10,
    }
}

/// The numeric value of a decimal digit string (most significant first).
pub open spec fn digits_value(s: Seq<char>) -> int
    decreases s.len(),
{
    if s.len() == 0 {
        0
    } else {
        digits_value(s.drop_last()) * 10 + (s.last() as u32 - 48)
    }
}

/// Every character is a decimal digit.
pub open spec fn all_digits(s: Seq<char>) -> bool {
    forall|i: int| 0 <= i < s.len() ==> 48 <= (#[trigger] s[i]) as u32 <= 57
}

/// What parsing a decimal string yields: its value, for a non-empty
/// all-digit string whose value fits a machine word; nothing otherwise.
pub open spec fn spec_parse_usize(s: Seq<char>) -> Option<usize> {
    if s.len() >= 1 && all_digits(s) && digits_value(s) <= usize::MAX {
        Some(digits_value(s) as usize)
    } else {
        None
    }
}

proof fn lemma_digits_value_nonneg(s: Seq<char>)
    requires
        all_digits(s),
    ensures
        digits_value(s) >= 0,
    decreases s.len(),
{
    if s.len() > 0 {
        assert(all_digits(s.drop_last()));
        lemma_digits_value_nonneg(s.drop_last());
    }
}

/// A digit string's value never falls below the value of any of its
/// prefixes.
proof fn lemma_digits_prefix_le(s: Seq<char>, i: int)
    requires
        all_digits(s),
        0 <= i <= s.len(),
    ensures
        digits_value(s.take(i)) <= digits_value(s),
    decreases s.len() - i,
{
    if i == s.len() {
        assert(s.take(i) =~= s);
    } else {
        assert(s.take(i + 1).drop_last() =~= s.take(i));
        assert(s.take(i + 1).last() == s[i]);
        assert(all_digits(s.take(i)));
        lemma_digits_value_nonneg(s.take(i));
        assert(digits_value(s.take(i)) <= digits_value(s.take(i + 1)));
        lemma_digits_prefix_le(s, i + 1);
    }
}

/// Parse a decimal number, rejecting empty or non-digit input and any
/// value too large for a machine word.
pub fn parse_usize(s: &str) -> (r: Option<usize>)
    ensures
        r == spec_parse_usize(s@),
{
    let n: usize = s.unicode_len();
    if n == 0 {
        return None;
    }
    let mut value: usize = 0;
    let mut i: usize = 0;
    while i < n
        invariant
            n == s@.len(),
            i <= n,
            forall|j: int| 0 <= j < i ==> 48 <= (#[trigger] s@[j]) as u32 <= 57,
            value == digits_value(s@.take(i as int)),
        decreases n - i,
    {
        let c: char = s.get_char(i);
        let code: u32 = c as u32;
        if code < 48 || code > 57 {
            return None;
        }
        let d: usize = (code - 48) as usize;
        proof {
            assert(s@.take(i as int + 1).drop_last() =~= s@.take(i as int));
            assert(s@.take(i as int + 1).last() == s@[i as int]);
        }
        let scaled: usize = match value.checked_mul(10) {
            Some(v) => v,
            None => {
                proof {
                    if all_digits(s@) {
                        lemma_digits_prefix_le(s@, i as int + 1);
                    }
                }
                return None;
            },
        };
        let next: usize = match scaled.checked_add(d) {
            Some(v) => v,
            None => {
                proof {
                    if all_digits(s@) {
                        lemma_digits_prefix_le(s@, i as int + 1);
                    }
                }
                return None;
            },
        };
        value = next;
        i = i + 1;
    }
    proof {
        assert(s@.take(n as int) =~= s@);
    }
    Some(value)
}

/// A whitespace character, as CSV fields carry them: space, tab, or a
/// line-break character.
pub open spec fn is_space(c: char) -> bool {
    c == ' ' || c == '\t' || c == '\n' || c == '\r' || c as u32 == 11 || c as u32 == 12
}

/// A string with its trailing whitespace removed.
pub open spec fn spec_trim_end(s: Seq<char>) -> Seq<char>
    decreases s.len(),
{
    if s.len() > 0 && is_space(s.last()) {
        spec_trim_end(s.drop_last())
    } else {
        s
    }
}

/// A string with its leading whitespace removed.
pub open spec fn spec_trim_start(s: Seq<char>) -> Seq<char>
    decreases s.len(),
{
    if s.len() > 0 && is_space(s.first()) {
        spec_trim_start(s.drop_first())
    } else {
        s
    }
}

/// A string with whitespace removed from both ends.
pub open spec fn spec_trim(s: Seq<char>) -> Seq<char> {
    spec_trim_start(spec_trim_end(s))
}

/// Whitespace test for one character.
pub fn is_space_char(c: char) -> (r: bool)
    ensures
        r == is_space(c),
{
    c == ' ' || c == '\t' || c == '\n' || c == '\r' || c as u32 == 11 || c as u32 == 12
}

/// Remove whitespace from both ends of a string.
pub fn trim(s: &str) -> (r: String)
    ensures
        r@ == spec_trim(s@),
{
    let n: usize = s.unicode_len();
    let mut end: usize = n;
    proof {
        assert(s@.take(n as int) =~= s@);
    }
    while end > 0 && is_space_char(s.get_char(end - 1))
        invariant
            n == s@.len(),
            end <= n,
            spec_trim_end(s@) == spec_trim_end(s@.take(end as int)),
        decreases end,
    {
        proof {
            assert(s@.take(end as int).last() == s@[end as int - 1]);
            assert(s@.take(end as int).drop_last() =~= s@.take(end as int - 1));
        }
        end = end - 1;
    }
    proof {
        assert(spec_trim_end(s@) == s@.take(end as int));
    }
    let mut start: usize = 0;
    while start < end && is_space_char(s.get_char(start))
        invariant
            n == s@.len(),
            start <= end <= n,
            spec_trim_end(s@) == s@.take(end as int),
            spec_trim(s@) == spec_trim_start(s@.subrange(start as int, end as int)),
        decreases end - start,
    {
        proof {
            assert(s@.subrange(start as int, end as int).first() == s@[start as int]);
            assert(s@.subrange(start as int, end as int).drop_first() =~= s@.subrange(
                start as int + 1,
                end as int,
            ));
        }
        start = start + 1;
    }
    proof {
        assert(spec_trim(s@) == s@.subrange(start as int, end as int));
    }
    let piece: &str = s.substring_char(start, end);
    piece.to_owned()
}

/// What `regex::Regex::captures` yields for a pattern on a text: the
/// text of each capture group (group zero being the whole match), `None`
/// in place of a group that did not participate, and `None` overall when
/// the pattern is invalid or nothing matches.  A pure function of the
/// pattern and the text.
pub uninterp spec fn regex_captures_of(pattern: Seq<char>, text: Seq<char>) -> Option<
    Seq<Option<Seq<char>>>,
>;

/// Relies on `regex::Regex::new` and `regex::Regex::captures`: compiling
/// a pattern and searching a text for its leftmost match depend on the
/// pattern and the text alone.
#[verifier::external_body]
fn regex_captures(pattern: &str, text: &str) -> (r: Option<Vec<Option<String>>>)
    ensures
        r is Some <==> regex_captures_of(pattern@, text@) is Some,
        r matches Some(groups) ==> regex_captures_of(pattern@, text@) == Some(
            groups.deep_view(),
        ),
{
    let re = match regex::Regex::new(pattern) {
        Ok(re) => re,
        Err(_) => return None,
    };
    let caps = re.captures(text)?;
    let mut groups: Vec<Option<String>> = Vec::new();
    for i in 0..caps.len() {
        groups.push(caps.get(i).map(|m| m.as_str().to_string()));
    }
    Some(groups)
}

/// What decoding a port pin name yields, step by step: the leftmost
/// `pmod<index>_<pin>` occurrence is found by the pattern; its first
/// group is the decimal port index, its second the signal pin number.
pub open spec fn spec_parse_pmod_pin(s: Seq<char>) -> Result<PmodIndexAndPin, PinMapError> {
    match regex_captures_of("pmod(\\d+)_(10|1|2|3|4|7|8|9)"@, s) {
        None => Err(PinMapError::InvalidPinName),
        Some(groups) => {
            if groups.len() < 3 || groups[1] is None || groups[2] is None {
                Err(PinMapError::InvalidPinName)
            } else {
                match spec_parse_usize(groups[1]->Some_0) {
                    None => Err(PinMapError::InvalidPinIndex),
                    Some(index) => match spec_parse_usize(groups[2]->Some_0) {
                        None => Err(PinMapError::InvalidPinNumber),
                        Some(pin) => Ok(PmodIndexAndPin { index, pin }),
                    },
                }
            }
        },
    }
}

/// Decode a port pin name such as `pmod3_7`.
pub fn parse_pmod_pin(s: &str) -> (r: Result<PmodIndexAndPin, PinMapError>)
    ensures
        r == spec_parse_pmod_pin(s@),
{
    let caps = match regex_captures("pmod(\\d+)_(10|1|2|3|4|7|8|9)", s) {
        Some(caps) => caps,
        None => {
            return Err(PinMapError::InvalidPinName);
        },
    };
    if caps.len() < 3 {
        return Err(PinMapError::InvalidPinName);
    }
    let index_text: &Option<String> = &caps[1];
    let pin_text: &Option<String> = &caps[2];
    match (index_text, pin_text) {
        (Some(index_text), Some(pin_text)) => {
            let index: usize = match parse_usize(index_text.as_str()) {
                Some(v) => v,
                None => {
                    return Err(PinMapError::InvalidPinIndex);
                },
            };
            let pin: usize = match parse_usize(pin_text.as_str()) {
                Some(v) => v,
                None => {
                    return Err(PinMapError::InvalidPinNumber);
                },
            };
            Ok(PmodIndexAndPin { index, pin })
        },
        _ => Err(PinMapError::InvalidPinName),
    }
}

impl core::str::FromStr for PmodIndexAndPin {
    type Err = PinMapError;

    fn from_str(s: &str) -> Result<PmodIndexAndPin, PinMapError> {
        parse_pmod_pin(s)
    }
}

/// One module's use of a port: for each of the eight pin slots, the
/// signal name the module puts there, if any.
#[derive(Debug, PartialEq, Eq)]
pub struct PmodUsage {
    pub pins: Vec<Option<String>>,
}

impl DeepView for PmodUsage {
    type V = Seq<Option<Seq<char>>>;

    open spec fn deep_view(&self) -> Seq<Option<Seq<char>>> {
        self.pins.deep_view()
    }
}

/// One of the board's ports: the FPGA pin location of each of the eight
/// pin slots.
#[derive(Debug, PartialEq, Eq)]
pub struct PmodPort {
    pub pins: Vec<String>,
}

impl DeepView for PmodPort {
    type V = Seq<Seq<char>>;

    open spec fn deep_view(&self) -> Seq<Seq<char>> {
        self.pins.deep_view()
    }
}

/// Every usage carries exactly eight pin slots.
pub open spec fn module_wf(m: Seq<PmodUsage>) -> bool {
    forall|k: int| 0 <= k < m.len() ==> (#[trigger] m[k]).pins@.len() == 8
}

/// Every port carries exactly eight pin slots.
pub open spec fn ports_wf(p: Seq<PmodPort>) -> bool {
    forall|k: int| 0 <= k < p.len() ==> (#[trigger] p[k]).pins@.len() == 8
}

/// What csv's reader parses a byte buffer into: the records after the
/// header row, each a sequence of fields, or nothing when any record is
/// malformed.  A pure function of the bytes.
pub uninterp spec fn csv_records_of(data: Seq<u8>) -> Option<Seq<Seq<Seq<char>>>>;

/// Relies on `csv::Reader::from_reader` and `csv::Reader::records`:
/// parsing a byte buffer is a function of the bytes alone; the default
/// reader takes the first row as a header and yields the rows after it,
/// and a malformed record is reported here as no result at all.
#[verifier::external_body]
fn csv_records(data: &[u8]) -> (r: Option<Vec<Vec<String>>>)
    ensures
        r is Some <==> csv_records_of(data@) is Some,
        r matches Some(rows) ==> csv_records_of(data@) == Some(rows.deep_view()),
{
    let mut reader = csv::Reader::from_reader(data);
    let mut rows: Vec<Vec<String>> = Vec::new();
    for record in reader.records() {
        match record {
            Ok(rec) => rows.push(rec.iter().map(|f| f.to_string()).collect()),
            Err(_) => return None,
        }
    }
    Some(rows)
}

/// A usage with all eight pin slots empty.
pub open spec fn empty_usage_view() -> Seq<Option<Seq<char>>> {
    Seq::new(8, |j: int| None)
}

/// A module (or port list) padded with empty entries up to `len`.
pub open spec fn spec_grow<A>(m: Seq<A>, len: int, fill: A) -> Seq<A> {
    if m.len() >= len {
        m
    } else {
        m + Seq::new((len - m.len()) as nat, |j: int| fill)
    }
}

/// Fold one CSV record into a module under construction: the second
/// column names the port pin, the first the module signal written into
/// that pin's slot (trimmed), growing the module as needed.
pub open spec fn spec_module_row(
    m: Seq<Seq<Option<Seq<char>>>>,
    row: Seq<Seq<char>>,
) -> Result<Seq<Seq<Option<Seq<char>>>>, PinMapError> {
    if row.len() < 2 {
        Err(PinMapError::ShortRow)
    } else {
        match spec_parse_pmod_pin(row[1]) {
            Err(e) => Err(e),
            Ok(ip) => {
                if ip.index >= MAX_PMOD_PORTS {
                    Err(PinMapError::PinIndexOutOfRange)
                } else if spec_pin_slot(ip.pin as int) < 0 {
                    Err(PinMapError::InvalidPinNumber)
                } else {
                    let grown = spec_grow(m, ip.index + 1, empty_usage_view());
                    let slot = spec_pin_slot(ip.pin as int);
                    Ok(
                        grown.update(
                            ip.index as int,
                            grown[ip.index as int].update(slot, Some(spec_trim(row[0]))),
                        ),
                    )
                }
            },
        }
    }
}

/// Fold a whole record list into a module; the first bad record's error
/// wins.
pub open spec fn spec_module_rows(rows: Seq<Seq<Seq<char>>>) -> Result<
    Seq<Seq<Option<Seq<char>>>>,
    PinMapError,
>
    decreases rows.len(),
{
    if rows.len() == 0 {
        Ok(Seq::empty())
    } else {
        match spec_module_rows(rows.drop_last()) {
            Err(e) => Err(e),
            Ok(m) => spec_module_row(m, rows.last()),
        }
    }
}

/// An error reached at some prefix of the records survives to the end
/// of the fold.
proof fn lemma_module_rows_err(rows: Seq<Seq<Seq<char>>>, j: int, e: PinMapError)
    requires
        0 <= j <= rows.len(),
        spec_module_rows(rows.take(j)) == Result::<
            Seq<Seq<Option<Seq<char>>>>,
            PinMapError,
        >::Err(e),
    ensures
        spec_module_rows(rows) == Result::<Seq<Seq<Option<Seq<char>>>>, PinMapError>::Err(e),
    decreases rows.len() - j,
{
    if j == rows.len() {
        assert(rows.take(j) =~= rows);
    } else {
        assert(rows.take(j + 1).drop_last() =~= rows.take(j));
        lemma_module_rows_err(rows, j + 1, e);
    }
}

/// A usage with all eight pin slots empty.
fn empty_usage() -> (u: PmodUsage)
    ensures
        u.pins@.len() == 8,
        u.deep_view() == empty_usage_view(),
{
    let mut pins: Vec<Option<String>> = Vec::new();
    let mut j: usize = 0;
    while j < 8
        invariant
            j <= 8,
            pins@.len() == j,
            forall|k: int| 0 <= k < j ==> (#[trigger] pins@[k]) is None,
        decreases 8 - j,
    {
        pins.push(None);
        j = j + 1;
    }
    let u = PmodUsage { pins };
    proof {
        assert(u.deep_view() =~= empty_usage_view());
    }
    u
}

/// Read a module description: CSV text whose records hold a signal name
/// and the port pin it sits on.
pub fn read_pmod_module(data: &[u8]) -> (r: Result<Vec<PmodUsage>, PinMapError>)
    ensures
        match csv_records_of(data@) {
            None => r matches Err(e) && e == PinMapError::MalformedCsv,
            Some(rows) => match spec_module_rows(rows) {
                Ok(sm) => r matches Ok(m) && m.deep_view() == sm && module_wf(m@),
                Err(e) => r matches Err(e2) && e2 == e,
            },
        },
{
    let rows: Vec<Vec<String>> = match csv_records(data) {
        Some(rows) => rows,
        None => {
            return Err(PinMapError::MalformedCsv);
        },
    };
    let ghost rows_view = rows.deep_view();
    let row_count: usize = rows.len();
    let mut module: Vec<PmodUsage> = Vec::new();
    let mut i: usize = 0;
    proof {
        assert(rows_view.take(0) =~= Seq::<Seq<Seq<char>>>::empty());
        assert(module.deep_view() =~= Seq::<Seq<Option<Seq<char>>>>::empty());
    }
    while i < row_count
        invariant
            row_count == rows@.len(),
            rows_view == rows.deep_view(),
            csv_records_of(data@) == Some(rows_view),
            i <= row_count,
            spec_module_rows(rows_view.take(i as int)) == Result::<
                Seq<Seq<Option<Seq<char>>>>,
                PinMapError,
            >::Ok(module.deep_view()),
            module_wf(module@),
            module@.len() <= MAX_PMOD_PORTS,
        decreases row_count - i,
    {
        let ghost m0 = module.deep_view();
        proof {
            assert(rows_view.take(i as int + 1).drop_last() =~= rows_view.take(i as int));
            assert(rows_view.take(i as int + 1).last() == rows_view[i as int]);
        }
        let row: &Vec<String> = &rows[i];
        proof {
            assert(row.deep_view() == rows_view[i as int]);
            assert(spec_module_rows(rows_view.take(i as int + 1)) == spec_module_row(
                m0,
                rows_view[i as int],
            ));
        }
        if row.len() < 2 {
            proof {
                lemma_module_rows_err(rows_view, i as int + 1, PinMapError::ShortRow);
            }
            return Err(PinMapError::ShortRow);
        }
        let ip: PmodIndexAndPin = match parse_pmod_pin(row[1].as_str()) {
            Ok(ip) => ip,
            Err(e) => {
                proof {
                    assert(rows_view[i as int][1] == row@[1]@);
                    assert(spec_module_row(m0, rows_view[i as int]) == Result::<
                        Seq<Seq<Option<Seq<char>>>>,
                        PinMapError,
                    >::Err(e));
                    lemma_module_rows_err(rows_view, i as int + 1, e);
                }
                return Err(e);
            },
        };
        if ip.index >= MAX_PMOD_PORTS {
            proof {
                lemma_module_rows_err(rows_view, i as int + 1, PinMapError::PinIndexOutOfRange);
            }
            return Err(PinMapError::PinIndexOutOfRange);
        }
        let slot: usize = match pin_slot(ip.pin) {
            Some(slot) => slot,
            None => {
                proof {
                    lemma_module_rows_err(
                        rows_view,
                        i as int + 1,
                        PinMapError::InvalidPinNumber,
                    );
                }
                return Err(PinMapError::InvalidPinNumber);
            },
        };
        let target_len: usize = ip.index + 1;
        let ghost grown = spec_grow(m0, target_len as int, empty_usage_view());
        proof {
            assert(m0 == spec_grow(m0, module@.len() as int, empty_usage_view()));
        }
        while module.len() < target_len
            invariant
                target_len <= MAX_PMOD_PORTS,
                m0.len() <= module@.len(),
                module@.len() == m0.len() || module@.len() <= target_len,
                module@.len() <= MAX_PMOD_PORTS,
                module_wf(module@),
                module.deep_view() == spec_grow(m0, module@.len() as int, empty_usage_view()),
            decreases target_len - module@.len(),
        {
            let ghost prev = module.deep_view();
            let ghost prev_len = module@.len() as int;
            module.push(empty_usage());
            proof {
                let now = module.deep_view();
                assert(now.len() == prev_len + 1);
                assert forall|j: int| 0 <= j < prev_len + 1 implies now[j] == spec_grow(
                    m0,
                    prev_len + 1,
                    empty_usage_view(),
                )[j] by {
                    if j < prev_len {
                        assert(now[j] == prev[j]);
                        assert(prev[j] == spec_grow(m0, prev_len, empty_usage_view())[j]);
                    } else {
                        assert(now[j] == empty_usage_view());
                    }
                }
                assert(now =~= spec_grow(m0, prev_len + 1, empty_usage_view()));
            }
        }
        proof {
            assert(module@.len() >= target_len);
            if module@.len() == m0.len() {
                assert(module.deep_view() == m0);
                assert(m0.len() >= target_len as int);
                assert(grown == m0);
            } else {
                assert(module@.len() == target_len);
            }
            assert(module.deep_view() == grown);
        }
        let ghost pre_vec = module@;
        let trimmed: String = trim(row[0].as_str());
        let ghost trimmed_view = trimmed@;
        let mut usage: PmodUsage = module.remove(ip.index);
        proof {
            assert(usage == pre_vec[ip.index as int]);
            assert(usage.deep_view() == grown[ip.index as int]);
        }
        let ghost pre_pins = usage.pins@;
        usage.pins.set(slot, Some(trimmed));
        proof {
            assert(usage.deep_view() =~= grown[ip.index as int].update(
                slot as int,
                Some(trimmed_view),
            ));
        }
        let ghost usage_view = usage.deep_view();
        module.insert(ip.index, usage);
        proof {
            let idx = ip.index as int;
            let st = slot as int;
            let target = grown.update(idx, grown[idx].update(st, Some(trimmed_view)));
            assert(module@ =~= pre_vec.update(idx, usage));
            assert forall|k: int| 0 <= k < module.deep_view().len() implies module.deep_view()[k]
                == target[k] by {
                if k != idx {
                    assert(module@[k] == pre_vec[k]);
                } else {
                    assert(module.deep_view()[k] == usage_view);
                }
            }
            assert(module.deep_view() =~= target);
            assert(spec_module_row(m0, rows_view[i as int]) == Result::<
                Seq<Seq<Option<Seq<char>>>>,
                PinMapError,
            >::Ok(target));
        }
        i = i + 1;
    }
    proof {
        assert(rows_view.take(row_count as int) =~= rows_view);
    }
    Ok(module)
}

/// A port with all eight locations still unnamed.
pub open spec fn empty_port_view() -> Seq<Seq<char>> {
    Seq::new(8, |j: int| Seq::<char>::empty())
}

/// Fold one CSV record into the port list under construction: the first
/// column names the port pin, the second the FPGA location written into
/// that pin's slot (trimmed), growing the list as needed.
pub open spec fn spec_port_row(p: Seq<Seq<Seq<char>>>, row: Seq<Seq<char>>) -> Result<
    Seq<Seq<Seq<char>>>,
    PinMapError,
> {
    if row.len() < 2 {
        Err(PinMapError::ShortRow)
    } else {
        match spec_parse_pmod_pin(row[0]) {
            Err(e) => Err(e),
            Ok(ip) => {
                if ip.index >= MAX_PMOD_PORTS {
                    Err(PinMapError::PinIndexOutOfRange)
                } else if spec_pin_slot(ip.pin as int) < 0 {
                    Err(PinMapError::InvalidPinNumber)
                } else {
                    let grown = spec_grow(p, ip.index + 1, empty_port_view());
                    let slot = spec_pin_slot(ip.pin as int);
                    Ok(
                        grown.update(
                            ip.index as int,
                            grown[ip.index as int].update(slot, spec_trim(row[1])),
                        ),
                    )
                }
            },
        }
    }
}

/// Fold a whole record list into the port list; the first bad record's
/// error wins.
pub open spec fn spec_port_rows(rows: Seq<Seq<Seq<char>>>) -> Result<
    Seq<Seq<Seq<char>>>,
    PinMapError,
>
    decreases rows.len(),
{
    if rows.len() == 0 {
        Ok(Seq::empty())
    } else {
        match spec_port_rows(rows.drop_last()) {
            Err(e) => Err(e),
            Ok(p) => spec_port_row(p, rows.last()),
        }
    }
}

proof fn lemma_port_rows_err(rows: Seq<Seq<Seq<char>>>, j: int, e: PinMapError)
    requires
        0 <= j <= rows.len(),
        spec_port_rows(rows.take(j)) == Result::<Seq<Seq<Seq<char>>>, PinMapError>::Err(e),
    ensures
        spec_port_rows(rows) == Result::<Seq<Seq<Seq<char>>>, PinMapError>::Err(e),
    decreases rows.len() - j,
{
    if j == rows.len() {
        assert(rows.take(j) =~= rows);
    } else {
        assert(rows.take(j + 1).drop_last() =~= rows.take(j));
        lemma_port_rows_err(rows, j + 1, e);
    }
}

/// The first empty pin location of a port, searching from slot `j` on.
pub open spec fn spec_first_empty_pin(port: Seq<Seq<char>>, j: int) -> Option<int>
    decreases 8 - j,
{
    if j < 0 || j >= 8 {
        None
    } else if j >= port.len() || port[j].len() == 0 {
        Some(j)
    } else {
        spec_first_empty_pin(port, j + 1)
    }
}

/// The first port (from index `i` on) with an empty pin location, and
/// that pin's slot.
pub open spec fn spec_first_undefined(ports: Seq<Seq<Seq<char>>>, i: int) -> Option<(int, int)>
    decreases ports.len() - i,
{
    if i < 0 || i >= ports.len() {
        None
    } else {
        match spec_first_empty_pin(ports[i], 0) {
            Some(j) => Some((i, j)),
            None => spec_first_undefined(ports, i + 1),
        }
    }
}

/// A port with all eight locations still unnamed.
fn empty_port() -> (p: PmodPort)
    ensures
        p.pins@.len() == 8,
        p.deep_view() == empty_port_view(),
{
    let mut pins: Vec<String> = Vec::new();
    let mut j: usize = 0;
    while j < 8
        invariant
            j <= 8,
            pins@.len() == j,
            forall|k: int| 0 <= k < j ==> (#[trigger] pins@[k])@.len() == 0,
        decreases 8 - j,
    {
        pins.push(String::new());
        j = j + 1;
    }
    let p = PmodPort { pins };
    proof {
        assert(p.deep_view() =~~= empty_port_view());
    }
    p
}

/// Read the board's port definition: CSV text whose records hold a port
/// pin name and the FPGA pin location behind it.  Every pin of every
/// port that the file mentions must end up with a location.
pub fn read_pmod_ports(data: &[u8]) -> (r: Result<Vec<PmodPort>, PinMapError>)
    ensures
        match csv_records_of(data@) {
            None => r matches Err(e) && e == PinMapError::MalformedCsv,
            Some(rows) => match spec_port_rows(rows) {
                Ok(sp) => match spec_first_undefined(sp, 0) {
                    Some(pair) => r matches Err(e) && e == (PinMapError::UndefinedPin {
                        port: pair.0 as usize,
                        pin: spec_slot_pin(pair.1) as usize,
                    }),
                    None => r matches Ok(p) && p.deep_view() == sp && ports_wf(p@),
                },
                Err(e) => r matches Err(e2) && e2 == e,
            },
        },
{
    let rows: Vec<Vec<String>> = match csv_records(data) {
        Some(rows) => rows,
        None => {
            return Err(PinMapError::MalformedCsv);
        },
    };
    let ghost rows_view = rows.deep_view();
    let row_count: usize = rows.len();
    let mut defs: Vec<PmodPort> = Vec::new();
    let mut i: usize = 0;
    proof {
        assert(rows_view.take(0) =~= Seq::<Seq<Seq<char>>>::empty());
        assert(defs.deep_view() =~= Seq::<Seq<Seq<char>>>::empty());
    }
    while i < row_count
        invariant
            row_count == rows@.len(),
            rows_view == rows.deep_view(),
            csv_records_of(data@) == Some(rows_view),
            i <= row_count,
            spec_port_rows(rows_view.take(i as int)) == Result::<
                Seq<Seq<Seq<char>>>,
                PinMapError,
            >::Ok(defs.deep_view()),
            ports_wf(defs@),
            defs@.len() <= MAX_PMOD_PORTS,
        decreases row_count - i,
    {
        let ghost p0 = defs.deep_view();
        proof {
            assert(rows_view.take(i as int + 1).drop_last() =~= rows_view.take(i as int));
            assert(rows_view.take(i as int + 1).last() == rows_view[i as int]);
        }
        let row: &Vec<String> = &rows[i];
        proof {
            assert(row.deep_view() == rows_view[i as int]);
            assert(spec_port_rows(rows_view.take(i as int + 1)) == spec_port_row(
                p0,
                rows_view[i as int],
            ));
        }
        if row.len() < 2 {
            proof {
                lemma_port_rows_err(rows_view, i as int + 1, PinMapError::ShortRow);
            }
            return Err(PinMapError::ShortRow);
        }
        let ip: PmodIndexAndPin = match parse_pmod_pin(row[0].as_str()) {
            Ok(ip) => ip,
            Err(e) => {
                proof {
                    assert(rows_view[i as int][0] == row@[0]@);
                    assert(spec_port_row(p0, rows_view[i as int]) == Result::<
                        Seq<Seq<Seq<char>>>,
                        PinMapError,
                    >::Err(e));
                    lemma_port_rows_err(rows_view, i as int + 1, e);
                }
                return Err(e);
            },
        };
        if ip.index >= MAX_PMOD_PORTS {
            proof {
                lemma_port_rows_err(rows_view, i as int + 1, PinMapError::PinIndexOutOfRange);
            }
            return Err(PinMapError::PinIndexOutOfRange);
        }
        let slot: usize = match pin_slot(ip.pin) {
            Some(slot) => slot,
            None => {
                proof {
                    lemma_port_rows_err(rows_view, i as int + 1, PinMapError::InvalidPinNumber);
                }
                return Err(PinMapError::InvalidPinNumber);
            },
        };
        let target_len: usize = ip.index + 1;
        let ghost grown = spec_grow(p0, target_len as int, empty_port_view());
        proof {
            assert(p0 == spec_grow(p0, defs@.len() as int, empty_port_view()));
        }
        while defs.len() < target_len
            invariant
                target_len <= MAX_PMOD_PORTS,
                p0.len() <= defs@.len(),
                defs@.len() == p0.len() || defs@.len() <= target_len,
                defs@.len() <= MAX_PMOD_PORTS,
                ports_wf(defs@),
                defs.deep_view() == spec_grow(p0, defs@.len() as int, empty_port_view()),
            decreases target_len - defs@.len(),
        {
            let ghost prev = defs.deep_view();
            let ghost prev_len = defs@.len() as int;
            defs.push(empty_port());
            proof {
                let now = defs.deep_view();
                assert(now.len() == prev_len + 1);
                assert forall|j: int| 0 <= j < prev_len + 1 implies now[j] == spec_grow(
                    p0,
                    prev_len + 1,
                    empty_port_view(),
                )[j] by {
                    if j < prev_len {
                        assert(now[j] == prev[j]);
                        assert(prev[j] == spec_grow(p0, prev_len, empty_port_view())[j]);
                    } else {
                        assert(now[j] == empty_port_view());
                    }
                }
                assert(now =~= spec_grow(p0, prev_len + 1, empty_port_view()));
            }
        }
        proof {
            assert(defs@.len() >= target_len);
            if defs@.len() == p0.len() {
                assert(defs.deep_view() == p0);
                assert(p0.len() >= target_len as int);
                assert(grown == p0);
            } else {
                assert(defs@.len() == target_len);
            }
            assert(defs.deep_view() == grown);
        }
        let ghost pre_vec = defs@;
        let trimmed: String = trim(row[1].as_str());
        let ghost trimmed_view = trimmed@;
        let mut port: PmodPort = defs.remove(ip.index);
        proof {
            assert(port == pre_vec[ip.index as int]);
            assert(port.deep_view() == grown[ip.index as int]);
        }
        port.pins.set(slot, trimmed);
        proof {
            assert(port.deep_view() =~= grown[ip.index as int].update(
                slot as int,
                trimmed_view,
            ));
        }
        let ghost port_view = port.deep_view();
        defs.insert(ip.index, port);
        proof {
            let idx = ip.index as int;
            let st = slot as int;
            let target = grown.update(idx, grown[idx].update(st, trimmed_view));
            assert(defs@ =~= pre_vec.update(idx, port));
            assert forall|k: int| 0 <= k < defs.deep_view().len() implies defs.deep_view()[k]
                == target[k] by {
                if k != idx {
                    assert(defs@[k] == pre_vec[k]);
                } else {
                    assert(defs.deep_view()[k] == port_view);
                }
            }
            assert(defs.deep_view() =~= target);
            assert(spec_port_row(p0, rows_view[i as int]) == Result::<
                Seq<Seq<Seq<char>>>,
                PinMapError,
            >::Ok(target));
        }
        i = i + 1;
    }
    proof {
        assert(rows_view.take(row_count as int) =~= rows_view);
    }
    let ghost ports_view = defs.deep_view();
    let port_count: usize = defs.len();
    let mut pi: usize = 0;
    while pi < port_count
        invariant
            port_count == defs@.len(),
            ports_view == defs.deep_view(),
            csv_records_of(data@) == Some(rows_view),
            spec_port_rows(rows_view) == Result::<Seq<Seq<Seq<char>>>, PinMapError>::Ok(
                ports_view,
            ),
            ports_wf(defs@),
            pi <= port_count,
            spec_first_undefined(ports_view, 0) == spec_first_undefined(ports_view, pi as int),
        decreases port_count - pi,
    {
        let port: &PmodPort = &defs[pi];
        proof {
            assert(port.deep_view() == ports_view[pi as int]);
        }
        let mut j: usize = 0;
        while j < 8
            invariant
                port.deep_view() == ports_view[pi as int],
                pi < port_count == defs@.len(),
                ports_view == defs.deep_view(),
                csv_records_of(data@) == Some(rows_view),
                spec_port_rows(rows_view) == Result::<Seq<Seq<Seq<char>>>, PinMapError>::Ok(
                    ports_view,
                ),
                ports_wf(defs@),
                port.pins@.len() == 8,
                j <= 8,
                spec_first_undefined(ports_view, 0) == spec_first_undefined(
                    ports_view,
                    pi as int,
                ),
                spec_first_empty_pin(ports_view[pi as int], 0) == spec_first_empty_pin(
                    ports_view[pi as int],
                    j as int,
                ),
            decreases 8 - j,
        {
            if defs[pi].pins[j].as_str().is_empty() {
                proof {
                    assert(spec_first_empty_pin(ports_view[pi as int], j as int) == Some(
                        j as int,
                    ));
                    assert(spec_first_undefined(ports_view, pi as int) == Some(
                        (pi as int, j as int),
                    ));
                }
                let pin_number: usize = slot_pin(j);
                return Err(PinMapError::UndefinedPin { port: pi, pin: pin_number });
            }
            j = j + 1;
        }
        proof {
            assert(spec_first_empty_pin(ports_view[pi as int], 8) is None);
            assert(spec_first_empty_pin(ports_view[pi as int], 0) is None);
            assert(spec_first_undefined(ports_view, pi as int) == spec_first_undefined(
                ports_view,
                pi as int + 1,
            ));
        }
        pi = pi + 1;
    }
    proof {
        assert(spec_first_undefined(ports_view, port_count as int) is None);
    }
    Ok(defs)
}

/// The order modules are laid over the ports.
#[derive(Clone, Copy, Debug, PartialEq, Eq, Structural)]
pub enum PmodDirection {
    LeftToRight,
    RightToLeft,
}

/// How many ports a list of modules occupies: one per usage.
pub open spec fn spec_total_usages(modules: Seq<Seq<Seq<Option<Seq<char>>>>>) -> int
    decreases modules.len(),
{
    if modules.len() == 0 {
        0
    } else {
        spec_total_usages(modules.drop_last()) + modules.last().len()
    }
}

proof fn lemma_total_usages_nonneg(modules: Seq<Seq<Seq<Option<Seq<char>>>>>)
    ensures
        spec_total_usages(modules) >= 0,
    decreases modules.len(),
{
    if modules.len() > 0 {
        lemma_total_usages_nonneg(modules.drop_last());
    }
}

proof fn lemma_total_usages_prefix(modules: Seq<Seq<Seq<Option<Seq<char>>>>>, j: int)
    requires
        0 <= j <= modules.len(),
    ensures
        spec_total_usages(modules.take(j)) <= spec_total_usages(modules),
    decreases modules.len() - j,
{
    if j == modules.len() {
        assert(modules.take(j) =~= modules);
    } else {
        assert(modules.take(j + 1).drop_last() =~= modules.take(j));
        lemma_total_usages_prefix(modules, j + 1);
    }
}

proof fn lemma_total_usages_first(modules: Seq<Seq<Seq<Option<Seq<char>>>>>)
    requires
        modules.len() > 0,
    ensures
        spec_total_usages(modules) == modules.first().len() + spec_total_usages(
            modules.drop_first(),
        ),
    decreases modules.len(),
{
    if modules.len() == 1 {
        assert(modules.drop_last() =~= Seq::<Seq<Seq<Option<Seq<char>>>>>::empty());
        assert(modules.drop_first() =~= Seq::<Seq<Seq<Option<Seq<char>>>>>::empty());
    } else {
        lemma_total_usages_first(modules.drop_last());
        assert(modules.drop_last().drop_first() =~= modules.drop_first().drop_last());
        assert(modules.drop_last().first() == modules.first());
        assert(modules.drop_first().last() == modules.last());
    }
}

/// A module list laid out in the given direction: as it stands, or with
/// both the module order and each module's usage order reversed.
pub open spec fn spec_directed(
    modules: Seq<Seq<Seq<Option<Seq<char>>>>>,
    direction: PmodDirection,
) -> Seq<Seq<Seq<Option<Seq<char>>>>> {
    match direction {
        PmodDirection::LeftToRight => modules,
        PmodDirection::RightToLeft => modules.reverse().map_values(
            |m: Seq<Seq<Option<Seq<char>>>>| m.reverse(),
        ),
    }
}

/// Reversing the layout does not change how many ports it needs.
proof fn lemma_total_usages_directed(
    modules: Seq<Seq<Seq<Option<Seq<char>>>>>,
    direction: PmodDirection,
)
    ensures
        spec_total_usages(spec_directed(modules, direction)) == spec_total_usages(modules),
    decreases modules.len(),
{
    match direction {
        PmodDirection::LeftToRight => {},
        PmodDirection::RightToLeft => {
            let d = spec_directed(modules, direction);
            if modules.len() == 0 {
                assert(d =~= Seq::<Seq<Seq<Option<Seq<char>>>>>::empty());
            } else {
                let tail = spec_directed(modules.drop_first(), direction);
                assert(d.drop_last() =~= tail);
                assert(d.last() == modules.first().reverse());
                lemma_total_usages_directed(modules.drop_first(), direction);
                lemma_total_usages_first(modules);
            }
        },
    }
}

/// The signal/location pairs one usage contributes over the port it
/// sits on, taking the pin slots before `j`: every named slot pairs the
/// signal with the port's location for that slot.
pub open spec fn spec_pair_pins_upto(
    usage: Seq<Option<Seq<char>>>,
    port: Seq<Seq<char>>,
    j: int,
) -> Seq<(Seq<char>, Seq<char>)>
    decreases j,
{
    if j <= 0 {
        Seq::empty()
    } else {
        spec_pair_pins_upto(usage, port, j - 1) + (if j - 1 < usage.len() && j - 1
            < port.len() {
            match usage[j - 1] {
                Some(name) => seq![(name, port[j - 1])],
                None => Seq::empty(),
            }
        } else {
            Seq::empty()
        })
    }
}

/// The pairs a whole module contributes, its usages sitting on
/// consecutive ports starting at `base`.
pub open spec fn spec_assign_one(
    module: Seq<Seq<Option<Seq<char>>>>,
    ports: Seq<Seq<Seq<char>>>,
    base: int,
) -> Seq<(Seq<char>, Seq<char>)>
    decreases module.len(),
{
    if module.len() == 0 {
        Seq::empty()
    } else {
        spec_assign_one(module.drop_last(), ports, base) + spec_pair_pins_upto(
            module.last(),
            ports[base + module.len() - 1],
            8,
        )
    }
}

/// The pairs of a whole layout: the modules in order, occupying
/// consecutive ports from `offset` on.
pub open spec fn spec_assign_modules(
    modules: Seq<Seq<Seq<Option<Seq<char>>>>>,
    ports: Seq<Seq<Seq<char>>>,
    offset: int,
) -> Seq<(Seq<char>, Seq<char>)>
    decreases modules.len(),
{
    if modules.len() == 0 {
        Seq::empty()
    } else {
        spec_assign_modules(modules.drop_last(), ports, offset) + spec_assign_one(
            modules.last(),
            ports,
            offset + spec_total_usages(modules.drop_last()),
        )
    }
}

/// The views of a list of signal/location pairs.
pub open spec fn pairs_view(pairs: Seq<(String, String)>) -> Seq<(Seq<char>, Seq<char>)> {
    Seq::new(pairs.len(), |i: int| (pairs[i].0@, pairs[i].1@))
}

/// Lay the modules over the board's ports, in the given direction and
/// starting at `port_offset`, pairing every named module signal with the
/// FPGA location of the port pin under it.  Fails exactly when the
/// modules need more ports than the board has left.
pub fn assign_pmod_modules_to_ports(
    ports: &Vec<PmodPort>,
    modules: &Vec<Vec<PmodUsage>>,
    port_offset: usize,
    direction: PmodDirection,
) -> (r: Result<Vec<(String, String)>, PinMapError>)
    requires
        ports_wf(ports@),
        forall|k: int| 0 <= k < modules@.len() ==> module_wf((#[trigger] modules@[k])@),
    ensures
        spec_total_usages(modules.deep_view()) + port_offset > ports@.len() ==> (r matches Err(e)
            && e == PinMapError::TooFewPorts),
        spec_total_usages(modules.deep_view()) + port_offset <= ports@.len() ==> (r matches Ok(
            pairs,
        ) && pairs_view(pairs@) == spec_assign_modules(
            spec_directed(modules.deep_view(), direction),
            ports.deep_view(),
            port_offset as int,
        )),
{
    let ghost mv = modules.deep_view();
    let ghost pv = ports.deep_view();
    let module_count: usize = modules.len();
    let port_count: usize = ports.len();
    let mut required: usize = 0;
    let mut m: usize = 0;
    proof {
        assert(mv.take(0) =~= Seq::<Seq<Seq<Option<Seq<char>>>>>::empty());
    }
    while m < module_count
        invariant
            module_count == modules@.len(),
            port_count == ports@.len(),
            mv == modules.deep_view(),
            m <= module_count,
            required == spec_total_usages(mv.take(m as int)),
        decreases module_count - m,
    {
        proof {
            assert(mv.take(m as int + 1).drop_last() =~= mv.take(m as int));
            assert(mv.take(m as int + 1).last() == mv[m as int]);
        }
        let usages: usize = modules[m].len();
        required = match required.checked_add(usages) {
            Some(v) => v,
            None => {
                proof {
                    assert(mv[m as int].len() == usages);
                    lemma_total_usages_prefix(mv, m as int + 1);
                    assert(spec_total_usages(mv) > usize::MAX);
                }
                return Err(PinMapError::TooFewPorts);
            },
        };
        m = m + 1;
    }
    proof {
        assert(mv.take(module_count as int) =~= mv);
    }
    let needed: usize = match required.checked_add(port_offset) {
        Some(v) => v,
        None => {
            return Err(PinMapError::TooFewPorts);
        },
    };
    if needed > port_count {
        return Err(PinMapError::TooFewPorts);
    }
    let ghost dm = spec_directed(mv, direction);
    proof {
        lemma_total_usages_directed(mv, direction);
        assert(dm.len() == mv.len());
        assert(dm.take(0) =~= Seq::<Seq<Seq<Option<Seq<char>>>>>::empty());
    }
    let mut result: Vec<(String, String)> = Vec::new();
    let mut k: usize = 0;
    let mut dmi: usize = 0;
    proof {
        assert(pairs_view(result@) =~= Seq::<(Seq<char>, Seq<char>)>::empty());
    }
    while dmi < module_count
        invariant
            module_count == modules@.len(),
            port_count == ports@.len(),
            mv == modules.deep_view(),
            pv == ports.deep_view(),
            dm == spec_directed(mv, direction),
            dm.len() == module_count,
            ports_wf(ports@),
            forall|t: int| 0 <= t < modules@.len() ==> module_wf((#[trigger] modules@[t])@),
            dmi <= module_count,
            required == spec_total_usages(mv),
            required == spec_total_usages(dm),
            required + port_offset <= ports@.len(),
            k == spec_total_usages(dm.take(dmi as int)),
            pairs_view(result@) == spec_assign_modules(dm.take(dmi as int), pv, port_offset as int),
        decreases module_count - dmi,
    {
        let actual_m: usize = match direction {
            PmodDirection::LeftToRight => dmi,
            PmodDirection::RightToLeft => module_count - 1 - dmi,
        };
        let module_ref: &Vec<PmodUsage> = &modules[actual_m];
        let usage_count: usize = module_ref.len();
        proof {
            assert(dm[dmi as int] == (match direction {
                PmodDirection::LeftToRight => mv[dmi as int],
                PmodDirection::RightToLeft => mv[actual_m as int].reverse(),
            }));
            assert(dm[dmi as int].len() == usage_count);
            assert(dm.take(dmi as int + 1).drop_last() =~= dm.take(dmi as int));
            assert(dm.take(dmi as int + 1).last() == dm[dmi as int]);
            lemma_total_usages_prefix(dm, dmi as int + 1);
            lemma_total_usages_nonneg(dm.take(dmi as int));
        }
        let k_base: usize = k;
        let mut ui: usize = 0;
        while ui < usage_count
            invariant
                module_count == modules@.len(),
                port_count == ports@.len(),
                mv == modules.deep_view(),
                pv == ports.deep_view(),
                dm == spec_directed(mv, direction),
                dm.len() == module_count,
                ports_wf(ports@),
                forall|t: int| 0 <= t < modules@.len() ==> module_wf((#[trigger] modules@[t])@),
                dmi < module_count,
                actual_m == (match direction {
                    PmodDirection::LeftToRight => dmi as int,
                    PmodDirection::RightToLeft => module_count - 1 - dmi as int,
                }),
                module_ref == modules@[actual_m as int],
                usage_count == module_ref@.len(),
                dm[dmi as int].len() == usage_count,
                required == spec_total_usages(dm),
                required + port_offset <= ports@.len(),
                k_base == spec_total_usages(dm.take(dmi as int)),
                k_base >= 0,
                k_base + usage_count <= required,
                ui <= usage_count,
                pairs_view(result@) == spec_assign_modules(dm.take(dmi as int), pv, port_offset as int)
                    + spec_assign_one(dm[dmi as int].take(ui as int), pv, port_offset + k_base),
            decreases usage_count - ui,
        {
            let actual_u: usize = match direction {
                PmodDirection::LeftToRight => ui,
                PmodDirection::RightToLeft => usage_count - 1 - ui,
            };
            let usage: &PmodUsage = &module_ref[actual_u];
            let port: &PmodPort = &ports[port_offset + k_base + ui];
            let ghost du = dm[dmi as int][ui as int];
            let ghost dp = pv[port_offset as int + k_base + ui];
            proof {
                assert(du == usage.deep_view());
                assert(dp == port.deep_view());
                assert(dm[dmi as int].take(ui as int + 1).drop_last() =~= dm[
                    dmi as int
                ].take(ui as int));
                assert(dm[dmi as int].take(ui as int + 1).last() == du);
            }
            let mut j: usize = 0;
            while j < 8
                invariant
                    usage.pins@.len() == 8,
                    port.pins@.len() == 8,
                    du == usage.deep_view(),
                    dp == port.deep_view(),
                    j <= 8,
                    pairs_view(result@) == spec_assign_modules(
                        dm.take(dmi as int),
                        pv,
                        port_offset as int,
                    ) + spec_assign_one(dm[dmi as int].take(ui as int), pv, port_offset + k_base)
                        + spec_pair_pins_upto(du, dp, j as int),
                decreases 8 - j,
            {
                match &usage.pins[j] {
                    Some(name) => {
                        let pair: (String, String) = (name.clone(), port.pins[j].clone());
                        let ghost before = result@;
                        result.push(pair);
                        proof {
                            assert(pairs_view(result@) =~= pairs_view(before) + seq![
                                (name@, port.pins@[j as int]@),
                            ]);
                            assert(du[j as int] == Some(name@));
                            assert(dp[j as int] == port.pins@[j as int]@);
                        }
                    },
                    None => {
                        proof {
                            assert(du[j as int] is None);
                        }
                    },
                }
                j = j + 1;
            }
            proof {
                assert(spec_assign_one(dm[dmi as int].take(ui as int + 1), pv, port_offset
                    + k_base) == spec_assign_one(dm[dmi as int].take(ui as int), pv, port_offset
                    + k_base) + spec_pair_pins_upto(du, pv[port_offset + k_base + ui], 8));
            }
            ui = ui + 1;
        }
        proof {
            assert(dm[dmi as int].take(usage_count as int) =~= dm[dmi as int]);
            assert(spec_total_usages(dm.take(dmi as int + 1)) == k_base + usage_count);
            assert(spec_assign_modules(dm.take(dmi as int + 1), pv, port_offset as int)
                == spec_assign_modules(dm.take(dmi as int), pv, port_offset as int)
                + spec_assign_one(dm[dmi as int], pv, port_offset + k_base));
        }
        k = k_base + usage_count;
        dmi = dmi + 1;
    }
    proof {
        assert(dm.take(module_count as int) =~= dm);
    }
    Ok(result)
}

/// One placement-constraint line: `IO_LOC "<signal>" <location>`.
pub open spec fn spec_loc_line(signal: Seq<char>, location: Seq<char>) -> Seq<char> {
    "IO_LOC \""@ + signal + "\" "@ + location + "\n"@
}

/// The whole constraint text: one line per pair, in order.
pub open spec fn spec_loc_lines(pairs: Seq<(Seq<char>, Seq<char>)>) -> Seq<char>
    decreases pairs.len(),
{
    if pairs.len() == 0 {
        Seq::empty()
    } else {
        spec_loc_lines(pairs.drop_last()) + spec_loc_line(
            pairs.last().0,
            pairs.last().1,
        )
    }
}

/// Render a pin map as Gowin placement constraints, one `IO_LOC` line
/// per signal.
pub fn write_pins_as_gowin_loc(pins: &Vec<(String, String)>) -> (r: String)
    ensures
        r@ == spec_loc_lines(pairs_view(pins@)),
{
    let mut out: String = String::new();
    let count: usize = pins.len();
    let mut i: usize = 0;
    proof {
        assert(pairs_view(pins@).take(0) =~= Seq::<(Seq<char>, Seq<char>)>::empty());
    }
    while i < count
        invariant
            count == pins@.len(),
            i <= count,
            out@ == spec_loc_lines(pairs_view(pins@).take(i as int)),
        decreases count - i,
    {
        let pair: &(String, String) = &pins[i];
        out.append("IO_LOC \"");
        out.append(pair.0.as_str());
        out.append("\" ");
        out.append(pair.1.as_str());
        out.append("\n");
        proof {
            assert(pairs_view(pins@).take(i as int + 1).drop_last() =~= pairs_view(
                pins@,
            ).take(i as int));
            assert(pairs_view(pins@).take(i as int + 1).last() == (pair.0@, pair.1@));
            assert(out@ =~= spec_loc_lines(pairs_view(pins@).take(i as int + 1)));
        }
        i = i + 1;
    }
    proof {
        assert(pairs_view(pins@).take(count as int) =~= pairs_view(pins@));
    }
    out
}

} // verus!
