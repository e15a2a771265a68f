use vstd::prelude::*;

use crate::performance::SignalAction;

verus! {

/// Lines after the header that one import handles at most.
pub const MAX_BATCH_SIZE: u32 = 100;

pub const MAX_RATIONALE_LEN: usize = 500;

/// Longest accepted expiry, in hours.
pub const MAX_EXPIRY_HOURS: u32 = 720;

#[derive(Clone, Copy, Debug, PartialEq, Eq, Structural)]
pub enum ImportError {
    InvalidFormat,
    InvalidAssetPair,
    InvalidPrice,
    InvalidAction,
    InvalidRationale,
    InvalidExpiry,
    BatchSizeExceeded,
    EmptyData,
    ParseError,
}

#[derive(Clone, Copy, Debug, PartialEq, Eq, Structural)]
pub enum ImportFormat {
    CSV,
    JSON,
    TradingView,
    TwitterParse,
}

/// Outcome of a bulk import.
#[derive(Clone, Copy, Debug, PartialEq, Eq, Structural)]
pub struct ImportResult {
    pub success_count: u32,
    pub error_count: u32,
}

/// Space or tab.
pub open spec fn is_blank(b: u8) -> bool {
    b == 32 || b == 9
}

/// `r` is `s` without its leading and trailing spaces and tabs.
pub open spec fn trimmed_of(r: Seq<u8>, s: Seq<u8>) -> bool {
    exists|start: int, end: int|
        0 <= start <= end <= s.len() && r == s.subrange(start, end) && (forall|i: int|
            0 <= i < start ==> is_blank(#[trigger] s[i])) && (forall|i: int|
            end <= i < s.len() ==> is_blank(#[trigger] s[i])) && (start < end ==> !is_blank(s[start])
            && !is_blank(s[end - 1]))
}

/// The bytes of `s` without leading and trailing spaces and tabs.
pub open spec fn trim_of(s: Seq<u8>) -> Seq<u8> {
    choose|t: Seq<u8>| trimmed_of(t, s)
}

/// What an action field (already trimmed) names: `BUY` or `SELL` in any case.
pub open spec fn action_from(t: Seq<u8>) -> Result<SignalAction, ImportError> {
    if t.len() == 3 && upper_of(t[0]) == 66 && upper_of(t[1]) == 85 && upper_of(t[2]) == 89 {
        Ok(SignalAction::Buy)
    } else if t.len() == 4 && upper_of(t[0]) == 83 && upper_of(t[1]) == 69 && upper_of(t[2]) == 76
        && upper_of(t[3]) == 76 {
        Ok(SignalAction::Sell)
    } else {
        Err(ImportError::InvalidAction)
    }
}

/// ASCII upper case.
pub open spec fn upper_of(b: u8) -> u8 {
    if 97 <= b <= 122 { (b - 32) as u8 } else { b }
}

/// ASCII upper case of one byte.
pub fn to_upper(byte: u8) -> (r: u8)
    ensures
        r == upper_of(byte),
{
    if byte >= 97 && byte <= 122 {
        byte - 32
    } else {
        byte
    }
}

/// Whether `byte` occurs in `data`.
pub fn contains_byte(data: &Vec<u8>, byte: u8) -> (r: bool)
    ensures
        r == data@.contains(byte),
{
    let mut i: usize = 0;
    while i < data.len()
        invariant
            0 <= i <= data.len(),
            forall|j: int| 0 <= j < i ==> data@[j] != byte,
        decreases data.len() - i,
    {
        if data[i] == byte {
            assert(data@[i as int] == byte);
            return true;
        }
        i = i + 1;
    }
    false
}

/// The bytes without leading and trailing spaces and tabs.
pub fn trim_bytes(data: &Vec<u8>) -> (r: Vec<u8>)
    ensures
        r@ == trim_of(data@),
        trimmed_of(r@, data@),
{
    let mut start: usize = 0;
    let mut end: usize = data.len();
    while start < end && (data[start] == 32 || data[start] == 9)
        invariant
            0 <= start <= end == data.len(),
            forall|i: int| 0 <= i < start ==> is_blank(#[trigger] data@[i]),
        decreases end - start,
    {
        start = start + 1;
    }
    while end > start && (data[end - 1] == 32 || data[end - 1] == 9)
        invariant
            0 <= start <= end <= data.len(),
            forall|i: int| 0 <= i < start ==> is_blank(#[trigger] data@[i]),
            start < end ==> !is_blank(data@[start as int]),
            forall|i: int| end <= i < data.len() ==> is_blank(#[trigger] data@[i]),
        decreases end - start,
    {
        end = end - 1;
    }
    let mut r: Vec<u8> = Vec::new();
    let mut k: usize = start;
    while k < end
        invariant
            start <= k <= end <= data.len(),
            r@ == data@.subrange(start as int, k as int),
        decreases end - k,
    {
        r.push(data[k]);
        k = k + 1;
        assert(r@ =~= data@.subrange(start as int, k as int));
    }
    assert(trimmed_of(r@, data@)) by {
        assert(0 <= start <= end <= data@.len() && r@ == data@.subrange(start as int, end as int));
    }
    proof {
        lemma_trim_unique(r@, data@);
    }
    r
}

/// `BUY` or `SELL`, in any case, around spaces and tabs.
pub fn validate_action(data: &Vec<u8>) -> (r: Result<SignalAction, ImportError>)
    ensures
        r == action_from(trim_of(data@)),
{
    let trimmed = trim_bytes(data);
    if trimmed.len() == 3 {
        if to_upper(trimmed[0]) == 66 && to_upper(trimmed[1]) == 85 && to_upper(trimmed[2]) == 89 {
            return Ok(SignalAction::Buy);
        }
    }
    if trimmed.len() == 4 {
        if to_upper(trimmed[0]) == 83 && to_upper(trimmed[1]) == 69 && to_upper(trimmed[2]) == 76
            && to_upper(trimmed[3]) == 76 {
            return Ok(SignalAction::Sell);
        }
    }
    Err(ImportError::InvalidAction)
}

/// Trimming has one result.
proof fn lemma_trim_unique(r: Seq<u8>, s: Seq<u8>)
    requires
        trimmed_of(r, s),
    ensures
        forall|t: Seq<u8>| #[trigger] trimmed_of(t, s) ==> t == r,
        trim_of(s) == r,
{
    assert forall|t: Seq<u8>| #[trigger] trimmed_of(t, s) implies t == r by {
        let (a, b) = choose|a: int, b: int|
            0 <= a <= b <= s.len() && r == s.subrange(a, b) && (forall|i: int|
                0 <= i < a ==> is_blank(#[trigger] s[i])) && (forall|i: int|
                b <= i < s.len() ==> is_blank(#[trigger] s[i])) && (a < b ==> !is_blank(s[a])
                && !is_blank(s[b - 1]));
        let (c, d) = choose|c: int, d: int|
            0 <= c <= d <= s.len() && t == s.subrange(c, d) && (forall|i: int|
                0 <= i < c ==> is_blank(#[trigger] s[i])) && (forall|i: int|
                d <= i < s.len() ==> is_blank(#[trigger] s[i])) && (c < d ==> !is_blank(s[c])
                && !is_blank(s[d - 1]));
        if a < b && c < d {
            if a < c { assert(is_blank(s[a])); }
            if c < a { assert(is_blank(s[c])); }
            if b < d { assert(is_blank(s[d - 1])); }
            if d < b { assert(is_blank(s[b - 1])); }
            assert(a == c && b == d);
        } else if a < b {
            // every byte of s is blank on the other side
            assert(is_blank(s[a]));
        } else if c < d {
            assert(is_blank(s[c]));
        }
        assert(t =~= r);
    }
    assert(trimmed_of(trim_of(s), s));
}

/// The scan of a number's bytes: digits accumulate, a leading `-` negates, a `.`
/// ends the scan, spaces are skipped and anything else is an error.
pub ghost struct NumberScan {
    pub value: int,
    pub negative: bool,
    pub started: bool,
    pub stopped: bool,
    pub bad: bool,
}

/// The scan after all of `s`.
pub open spec fn scan_number(s: Seq<u8>) -> NumberScan
    decreases s.len(),
{
    if s.len() == 0 {
        NumberScan { value: 0, negative: false, started: false, stopped: false, bad: false }
    } else {
        let st = scan_number(s.drop_last());
        let b = s.last();
        if st.stopped || st.bad {
            st
        } else if b == 45 && !st.started {
            NumberScan { negative: true, started: true, ..st }
        } else if 48 <= b <= 57 {
            NumberScan { value: st.value * 10 + (b - 48), started: true, ..st }
        } else if b == 46 {
            NumberScan { stopped: true, ..st }
        } else if b != 32 {
            NumberScan { bad: true, ..st }
        } else {
            st
        }
    }
}

/// The integer written in `t` (already trimmed): its integer part, with an
/// optional leading minus.
pub open spec fn parsed_integer(t: Seq<u8>) -> Result<i128, ImportError> {
    let st = scan_number(t);
    if t.len() == 0 || st.bad || !st.started || st.value > i128::MAX {
        Err(ImportError::InvalidPrice)
    } else if st.negative {
        Ok((-st.value) as i128)
    } else {
        Ok(st.value as i128)
    }
}

proof fn lemma_scan_value_nonneg(s: Seq<u8>)
    ensures
        scan_number(s).value >= 0,
    decreases s.len(),
{
    if s.len() > 0 {
        lemma_scan_value_nonneg(s.drop_last());
    }
}

/// Reads an integer: spaces and tabs around it are ignored, a fractional part
/// after `.` is dropped, and anything that is not a number (or does not fit in
/// `i128`) is `InvalidPrice`.
pub fn parse_i128_from_bytes(data: &Vec<u8>) -> (r: Result<i128, ImportError>)
    ensures
        r == parsed_integer(trim_of(data@)),
{
    let trimmed = trim_bytes(data);
    if trimmed.len() == 0 {
        return Err(ImportError::InvalidPrice);
    }
    let mut result: i128 = 0;
    let mut negative = false;
    let mut started = false;
    let mut i: usize = 0;
    while i < trimmed.len()
        invariant
            0 <= i <= trimmed.len(),
            trimmed@ == trim_of(data@),
            ({
                let st = scan_number(trimmed@.take(i as int));
                &&& st.value == result as int
                &&& st.negative == negative
                &&& st.started == started
                &&& !st.bad
                &&& st.stopped ==> i == trimmed.len()
            }),
        decreases trimmed.len() - i,
    {
        let b = trimmed[i];
        proof {
            assert(trimmed@.take(i + 1).drop_last() =~= trimmed@.take(i as int));
            lemma_scan_value_nonneg(trimmed@.take(i as int));
        }
        if b == 46 {
            proof {
                lemma_scan_frozen(trimmed@, i as int + 1);
                assert(trimmed@.take(trimmed@.len() as int) =~= trimmed@);
            }
            i = trimmed.len();
        } else {
            if b == 45 && !started {
                negative = true;
                started = true;
            } else if b >= 48 && b <= 57 {
                let digit = (b - 48) as i128;
                if result > (i128::MAX - digit) / 10 {
                    proof {
                        assert(result * 10 + digit > i128::MAX) by (nonlinear_arith)
                            requires result > (i128::MAX - digit) / 10, 0 <= digit <= 9;
                        assert(scan_number(trimmed@.take(i + 1)).value == result * 10 + digit);
                        lemma_scan_overflow_stays(trimmed@, i as int + 1);
                        assert(parsed_integer(trimmed@) == Err::<i128, ImportError>(ImportError::InvalidPrice));
                    }
                    return Err(ImportError::InvalidPrice);
                }
                assert(result * 10 + digit <= i128::MAX) by (nonlinear_arith)
                    requires result <= (i128::MAX - digit) / 10, 0 <= digit <= 9, result >= 0;
                result = result * 10 + digit;
                started = true;
            } else if b != 32 {
                proof {
                    assert(scan_number(trimmed@.take(i + 1)).bad);
                    lemma_scan_frozen(trimmed@, i as int + 1);
                    assert(parsed_integer(trimmed@) == Err::<i128, ImportError>(ImportError::InvalidPrice));
                }
                return Err(ImportError::InvalidPrice);
            }
            i = i + 1;
        }
    }
    assert(trimmed@.take(trimmed@.len() as int) =~= trimmed@);
    if !started {
        return Err(ImportError::InvalidPrice);
    }
    assert(result >= 0) by {
        lemma_scan_value_nonneg(trimmed@);
    }
    Ok(
        if negative {
            -result
        } else {
            result
        },
    )
}

/// Once stopped or failed, the scan no longer changes.
proof fn lemma_scan_frozen(s: Seq<u8>, i: int)
    requires
        0 <= i <= s.len(),
        scan_number(s.take(i)).stopped || scan_number(s.take(i)).bad,
    ensures
        scan_number(s) == scan_number(s.take(i)),
    decreases s.len() - i,
{
    if i < s.len() {
        assert(s.take(i + 1).drop_last() =~= s.take(i));
        lemma_scan_frozen(s, i + 1);
    } else {
        assert(s.take(i) =~= s);
    }
}

/// Once the value passes `i128::MAX` the result is an error whatever follows.
proof fn lemma_scan_overflow_stays(s: Seq<u8>, i: int)
    requires
        0 <= i <= s.len(),
        !scan_number(s.take(i)).stopped,
        scan_number(s.take(i)).value > i128::MAX || scan_number(s.take(i)).bad,
    ensures
        scan_number(s).value > i128::MAX || scan_number(s).bad,
    decreases s.len() - i,
{
    if i < s.len() {
        assert(s.take(i + 1).drop_last() =~= s.take(i));
        lemma_scan_value_nonneg(s.take(i));
        if scan_number(s.take(i + 1)).stopped {
            lemma_scan_frozen(s, i + 1);
        } else {
            lemma_scan_overflow_stays(s, i + 1);
        }
    } else {
        assert(s.take(i) =~= s);
    }
}

} // verus!

verus! {

/// A non-negative integer that fits in `u32`; out of range is `InvalidFormat`.
pub open spec fn parsed_u32(t: Seq<u8>) -> Result<u32, ImportError> {
    match parsed_integer(t) {
        Err(e) => Err(e),
        Ok(v) => if v < 0 || v > u32::MAX {
            Err(ImportError::InvalidFormat)
        } else {
            Ok(v as u32)
        },
    }
}

/// Checks of one CSV line `asset_pair,action,price,rationale,expiry_hours`, in order.
pub open spec fn csv_line_check(fields: Seq<Seq<u8>>) -> Result<(), ImportError> {
    if fields.len() < 5 {
        Err(ImportError::InvalidFormat)
    } else if !fields[0].contains(47u8) {
        Err(ImportError::InvalidAssetPair)
    } else if action_from(trim_of(fields[1])) is Err {
        Err(ImportError::InvalidAction)
    } else {
        match parsed_integer(trim_of(fields[2])) {
            Err(e) => Err(e),
            Ok(price) => if price <= 0 {
                Err(ImportError::InvalidPrice)
            } else if fields[3].len() == 0 || fields[3].len() > MAX_RATIONALE_LEN {
                Err(ImportError::InvalidRationale)
            } else {
                match parsed_u32(trim_of(fields[4])) {
                    Err(e) => Err(e),
                    Ok(expiry) => if expiry == 0 || expiry > MAX_EXPIRY_HOURS {
                        Err(ImportError::InvalidExpiry)
                    } else {
                        Ok(())
                    },
                }
            },
        }
    }
}

/// Reads a non-negative integer that fits in `u32`; other integers are
/// `InvalidFormat`, non-numbers `InvalidPrice`.
pub fn parse_u32_from_bytes(data: &Vec<u8>) -> (r: Result<u32, ImportError>)
    ensures
        r == parsed_u32(trim_of(data@)),
{
    let value = parse_i128_from_bytes(data)?;
    if value < 0 || value > u32::MAX as i128 {
        return Err(ImportError::InvalidFormat);
    }
    Ok(value as u32)
}

/// Validates one CSV line: at least five fields, an asset pair with `/`, a
/// `BUY`/`SELL` action, a positive price, a rationale of 1 to 500 bytes and an
/// expiry of 1 to 720 hours.
pub fn validate_csv_line(fields: &Vec<Vec<u8>>) -> (r: Result<(), ImportError>)
    ensures
        r == csv_line_check(fields.deep_view()),
{
    let ghost f = fields.deep_view();
    if fields.len() < 5 {
        return Err(ImportError::InvalidFormat);
    }
    assert(f[0] == fields[0]@ && f[1] == fields[1]@ && f[2] == fields[2]@ && f[3] == fields[3]@
        && f[4] == fields[4]@);
    if !contains_byte(&fields[0], 47) {
        return Err(ImportError::InvalidAssetPair);
    }
    validate_action(&fields[1])?;
    let price = parse_i128_from_bytes(&fields[2])?;
    if price <= 0 {
        return Err(ImportError::InvalidPrice);
    }
    if fields[3].len() == 0 || fields[3].len() > MAX_RATIONALE_LEN {
        return Err(ImportError::InvalidRationale);
    }
    let expiry = parse_u32_from_bytes(&fields[4])?;
    if expiry == 0 || expiry > MAX_EXPIRY_HOURS {
        return Err(ImportError::InvalidExpiry);
    }
    Ok(())
}

/// Splitting state: the finished lines, the fields of the current line, and the
/// bytes of the current field.
pub ghost struct CsvScan {
    pub lines: Seq<Seq<Seq<u8>>>,
    pub line: Seq<Seq<u8>>,
    pub field: Seq<u8>,
}

/// `\n` or `\r`.
pub open spec fn is_line_break(b: u8) -> bool {
    b == 10 || b == 13
}

/// One byte of the split: a line break closes a non-empty line, a comma closes a
/// field, anything else extends the field.
pub open spec fn csv_step(st: CsvScan, b: u8) -> CsvScan {
    if is_line_break(b) {
        if st.field.len() > 0 || st.line.len() > 0 {
            CsvScan { lines: st.lines.push(st.line.push(st.field)), line: seq![], field: seq![] }
        } else {
            st
        }
    } else if b == 44 {
        CsvScan { line: st.line.push(st.field), field: seq![], ..st }
    } else {
        CsvScan { field: st.field.push(b), ..st }
    }
}

/// The split state after all of `data`.
pub open spec fn csv_scan(data: Seq<u8>) -> CsvScan
    decreases data.len(),
{
    if data.len() == 0 {
        CsvScan { lines: seq![], line: seq![], field: seq![] }
    } else {
        csv_step(csv_scan(data.drop_last()), data.last())
    }
}

/// The lines of `data`, each a sequence of fields; blank lines are skipped.
pub open spec fn csv_lines(data: Seq<u8>) -> Seq<Seq<Seq<u8>>> {
    let st = csv_scan(data);
    let line = if st.field.len() > 0 { st.line.push(st.field) } else { st.line };
    if line.len() > 0 { st.lines.push(line) } else { st.lines }
}

proof fn lemma_bytes_deep_view(v: Vec<u8>)
    ensures
        v.deep_view() == v@,
{
    assert(v.deep_view() =~= v@);
}

/// Splits bytes into lines (at `\n` or `\r`) and fields (at `,`).
pub fn parse_csv_lines(data: &Vec<u8>) -> (r: Vec<Vec<Vec<u8>>>)
    ensures
        r.deep_view() == csv_lines(data@),
{
    let mut lines: Vec<Vec<Vec<u8>>> = Vec::new();
    let mut line: Vec<Vec<u8>> = Vec::new();
    let mut field: Vec<u8> = Vec::new();
    let mut i: usize = 0;
    assert(data@.take(0) =~= Seq::<u8>::empty());
    assert(lines.deep_view() =~= Seq::<Seq<Seq<u8>>>::empty());
    assert(line.deep_view() =~= Seq::<Seq<u8>>::empty());
    assert(field@ =~= Seq::<u8>::empty());
    while i < data.len()
        invariant
            0 <= i <= data.len(),
            csv_scan(data@.take(i as int)) == (CsvScan {
                lines: lines.deep_view(),
                line: line.deep_view(),
                field: field@,
            }),
        decreases data.len() - i,
    {
        let b = data[i];
        proof {
            assert(data@.take(i + 1).drop_last() =~= data@.take(i as int));
        }
        let ghost st = csv_scan(data@.take(i as int));
        if b == 10 || b == 13 {
            if field.len() > 0 || line.len() > 0 {
                let mut f: Vec<u8> = Vec::new();
                std::mem::swap(&mut f, &mut field);
                proof {
                    lemma_bytes_deep_view(f);
                }
                let ghost line_before = line.deep_view();
                line.push(f);
                assert(line.deep_view() =~= line_before.push(st.field));
                let mut l: Vec<Vec<u8>> = Vec::new();
                std::mem::swap(&mut l, &mut line);
                assert(l.deep_view() =~= st.line.push(st.field));
                let ghost before = lines.deep_view();
                lines.push(l);
                assert(lines.deep_view() =~= before.push(st.line.push(st.field)));
                assert(line.deep_view() =~= Seq::<Seq<u8>>::empty());
                assert(field@ =~= Seq::<u8>::empty());
            }
        } else if b == 44 {
            let mut f: Vec<u8> = Vec::new();
            std::mem::swap(&mut f, &mut field);
            proof {
                lemma_bytes_deep_view(f);
            }
            let ghost before = line.deep_view();
            line.push(f);
            assert(line.deep_view() =~= before.push(st.field));
            assert(field@ =~= Seq::<u8>::empty());
        } else {
            field.push(b);
        }
        i = i + 1;
    }
    assert(data@.take(data.len() as int) =~= data@);
    let ghost st = csv_scan(data@);
    if field.len() > 0 {
        proof {
            lemma_bytes_deep_view(field);
        }
        let ghost before = line.deep_view();
        line.push(field);
        assert(line.deep_view() =~= before.push(st.field));
    }
    if line.len() > 0 {
        let ghost before = lines.deep_view();
        let ghost last = line.deep_view();
        lines.push(line);
        assert(lines.deep_view() =~= before.push(last));
    }
    lines
}

/// Lines `1..n` (after the header) that pass the checks.
pub open spec fn valid_lines(lines: Seq<Seq<Seq<u8>>>, n: int) -> nat
    decreases n,
{
    if n <= 1 {
        0
    } else {
        valid_lines(lines, n - 1) + if csv_line_check(lines[n - 1]) is Ok { 1nat } else { 0nat }
    }
}

/// Lines looked at: the header is skipped and at most 100 follow it.
pub open spec fn lines_considered(lines: Seq<Seq<Seq<u8>>>) -> int {
    if lines.len() < MAX_BATCH_SIZE + 1 { lines.len() as int } else { MAX_BATCH_SIZE + 1 }
}

/// The outcome of importing `data`: valid lines count as successes (unless only
/// validating) and invalid ones as errors; no line at all is one error.
pub open spec fn import_outcome(data: Seq<u8>, validate_only: bool) -> ImportResult {
    let lines = csv_lines(data);
    if lines.len() == 0 {
        ImportResult { success_count: 0, error_count: 1 }
    } else {
        let n = lines_considered(lines);
        let ok = valid_lines(lines, n);
        ImportResult {
            success_count: if validate_only { 0 } else { ok as u32 },
            error_count: (n - 1 - ok) as u32,
        }
    }
}

proof fn lemma_valid_lines_bound(lines: Seq<Seq<Seq<u8>>>, n: int)
    requires
        n >= 1,
    ensures
        valid_lines(lines, n) <= n - 1,
    decreases n,
{
    if n > 1 {
        lemma_valid_lines_bound(lines, n - 1);
    }
}

/// Checks the lines of a CSV text (the first line is a header) and counts the
/// signals that would be created and the lines that were rejected.
pub fn import_signals_csv(data: &Vec<u8>, validate_only: bool) -> (r: ImportResult)
    ensures
        r == import_outcome(data@, validate_only),
{
    let lines = parse_csv_lines(data);
    let ghost ls = lines.deep_view();
    if lines.len() == 0 {
        return ImportResult { success_count: 0, error_count: 1 };
    }
    let limit: usize = if lines.len() < MAX_BATCH_SIZE as usize + 1 {
        lines.len()
    } else {
        MAX_BATCH_SIZE as usize + 1
    };
    let mut success_count: u32 = 0;
    let mut error_count: u32 = 0;
    let mut valid: u32 = 0;
    let mut i: usize = 1;
    while i < limit
        invariant
            1 <= i <= limit <= lines.len(),
            limit <= MAX_BATCH_SIZE + 1,
            lines.deep_view() == ls,
            valid == valid_lines(ls, i as int),
            success_count == if validate_only { 0 } else { valid },
            error_count == i - 1 - valid,
        decreases limit - i,
    {
        proof {
            lemma_valid_lines_bound(ls, i as int);
        }
        assert(lines[i as int].deep_view() == ls[i as int]);
        match validate_csv_line(&lines[i]) {
            Ok(_) => {
                valid = valid + 1;
                if !validate_only {
                    success_count = success_count + 1;
                }
            },
            Err(_) => {
                error_count = error_count + 1;
            },
        }
        i = i + 1;
    }
    ImportResult { success_count, error_count }
}

} // verus!
