//! Mode 01 PID tables, hex parsing, support bitmaps and Mode 09 VIN.
use crate::error::Error;
use crate::text::{
    append_hex2, chars_of, concat, cviews, debug_quoted, debug_text, find, hex_digit, hex_digit_value,
    hex_digits_of, hex_value, hex2, is_alnum, is_hex_digit, keep_hex, lemma_first_occurrence_some,
    lemma_keep_hex_all_hex, lines, lines_of, owned, string_of, trim, trim_chars, upper, upper_of,
    alnum, first_occurrence,
};
use vstd::prelude::*;

verus! {

/// Definition of a standard OBD PID.
#[derive(Debug, Clone)]
pub struct PidDef {
    pub mode: u8,
    pub pid: u8,
    pub name: String,
    pub unit: String,
    pub description: String,
}

pub struct PidDefView {
    pub mode: u8,
    pub pid: u8,
    pub name: Seq<char>,
    pub unit: Seq<char>,
    pub description: Seq<char>,
}

impl View for PidDef {
    type V = PidDefView;

    open spec fn view(&self) -> PidDefView {
        PidDefView {
            mode: self.mode,
            pid: self.pid,
            name: self.name@,
            unit: self.unit@,
            description: self.description@,
        }
    }
}

pub open spec fn pid_def_views(v: Seq<PidDef>) -> Seq<PidDefView> {
    v.map_values(|d: PidDef| d@)
}

/// An exact decoded value: `num / den`.
#[derive(Debug, Clone, Copy, PartialEq, Eq, Structural)]
pub struct Fraction {
    pub num: i64,
    pub den: u32,
}

/// One decoded live value.
#[derive(Debug, Clone)]
pub struct LiveValue {
    pub mode: u8,
    pub pid: u8,
    pub name: String,
    pub value: Fraction,
    pub unit: String,
    pub raw_hex: String,
}

pub struct LiveValueView {
    pub mode: u8,
    pub pid: u8,
    pub name: Seq<char>,
    pub value: Fraction,
    pub unit: Seq<char>,
    pub raw_hex: Seq<char>,
}

impl View for LiveValue {
    type V = LiveValueView;

    open spec fn view(&self) -> LiveValueView {
        LiveValueView {
            mode: self.mode,
            pid: self.pid,
            name: self.name@,
            value: self.value,
            unit: self.unit@,
            raw_hex: self.raw_hex@,
        }
    }
}

pub open spec fn def_view(mode: u8, pid: u8, name: &str, unit: &str, description: &str) -> PidDefView {
    PidDefView { mode, pid, name: name@, unit: unit@, description: description@ }
}

/// The built-in dashboard PID table.
pub open spec fn standard_pid_table() -> Seq<PidDefView> {
    seq![
        def_view(0x01, 0x0C, "engine_rpm", "rpm", "Engine RPM"),
        def_view(0x01, 0x0D, "vehicle_speed", "km/h", "Vehicle speed"),
        def_view(0x01, 0x05, "coolant_temp", "C", "Engine coolant temperature"),
        def_view(0x01, 0x0F, "intake_temp", "C", "Intake air temperature"),
        def_view(0x01, 0x11, "throttle", "%", "Throttle position"),
        def_view(0x01, 0x04, "engine_load", "%", "Calculated engine load"),
        def_view(0x01, 0x0B, "map", "kPa", "Manifold absolute pressure"),
        def_view(0x01, 0x10, "maf", "g/s", "Mass air flow"),
        def_view(0x01, 0x2F, "fuel_level", "%", "Fuel tank level"),
        def_view(0x01, 0x46, "ambient_temp", "C", "Ambient air temperature"),
        def_view(0x01, 0x42, "control_module_voltage", "V", "Control module voltage"),
        def_view(0x01, 0x5C, "oil_temp", "C", "Engine oil temperature"),
        def_view(0x01, 0x5E, "fuel_rate", "L/h", "Engine fuel rate"),
        def_view(0x01, 0x0E, "timing_advance", "deg", "Timing advance"),
        def_view(0x01, 0x33, "baro", "kPa", "Barometric pressure"),
        def_view(0x01, 0x1F, "run_time", "s", "Run time since start"),
    ]
}

fn pid(mode: u8, number: u8, name: &str, unit: &str, description: &str) -> (r: PidDef)
    ensures
        r@ == def_view(mode, number, name, unit, description),
{
    PidDef {
        mode,
        pid: number,
        name: owned(name),
        unit: owned(unit),
        description: owned(description),
    }
}

/// Built-in PID table for the live dashboard (priority subset).
pub fn standard_pid_defs() -> (r: Vec<PidDef>)
    ensures
        pid_def_views(r@) == standard_pid_table(),
{
    let mut v: Vec<PidDef> = Vec::new();
    v.push(pid(0x01, 0x0C, "engine_rpm", "rpm", "Engine RPM"));
    v.push(pid(0x01, 0x0D, "vehicle_speed", "km/h", "Vehicle speed"));
    v.push(pid(0x01, 0x05, "coolant_temp", "C", "Engine coolant temperature"));
    v.push(pid(0x01, 0x0F, "intake_temp", "C", "Intake air temperature"));
    v.push(pid(0x01, 0x11, "throttle", "%", "Throttle position"));
    v.push(pid(0x01, 0x04, "engine_load", "%", "Calculated engine load"));
    v.push(pid(0x01, 0x0B, "map", "kPa", "Manifold absolute pressure"));
    v.push(pid(0x01, 0x10, "maf", "g/s", "Mass air flow"));
    v.push(pid(0x01, 0x2F, "fuel_level", "%", "Fuel tank level"));
    v.push(pid(0x01, 0x46, "ambient_temp", "C", "Ambient air temperature"));
    v.push(pid(0x01, 0x42, "control_module_voltage", "V", "Control module voltage"));
    v.push(pid(0x01, 0x5C, "oil_temp", "C", "Engine oil temperature"));
    v.push(pid(0x01, 0x5E, "fuel_rate", "L/h", "Engine fuel rate"));
    v.push(pid(0x01, 0x0E, "timing_advance", "deg", "Timing advance"));
    v.push(pid(0x01, 0x33, "baro", "kPa", "Barometric pressure"));
    v.push(pid(0x01, 0x1F, "run_time", "s", "Run time since start"));
    assert(pid_def_views(v@) =~= standard_pid_table());
    v
}

/// The high-rate PIDs of the capture priority channel.
pub open spec fn priority_pid_list() -> Seq<u8> {
    seq![0x0Cu8, 0x0D, 0x04, 0x11, 0x0B, 0x10, 0x05]
}

/// High-rate PIDs for capture priority channel.
pub fn priority_pids() -> (r: Vec<u8>)
    ensures
        r@ == priority_pid_list(),
{
    let r: Vec<u8> = vec![0x0C, 0x0D, 0x04, 0x11, 0x0B, 0x10, 0x05];
    assert(r@ =~= priority_pid_list());
    r
}

/// Build Mode 01 request string (no spaces), e.g. `010C`.
pub fn mode01_command(pid: u8) -> (r: String)
    ensures
        r@ == "01"@ + hex2(pid),
{
    let mut r = owned("01");
    append_hex2(&mut r, pid);
    r
}

/// Build Mode 09 request string, e.g. `0902`.
pub fn mode09_command(pid: u8) -> (r: String)
    ensures
        r@ == "09"@ + hex2(pid),
{
    let mut r = owned("09");
    append_hex2(&mut r, pid);
    r
}

// ---------------------------------------------------------------------------
// Hexadecimal payloads
// ---------------------------------------------------------------------------

/// The bytes spelled by consecutive pairs of hexadecimal digits.
pub open spec fn hex_pairs(d: Seq<char>) -> Seq<u8> {
    Seq::new(d.len() / 2, |i: int| (hex_value(d[2 * i]) * 16 + hex_value(d[2 * i + 1])) as u8)
}

/// What a hex response holds: the bytes of its hexadecimal digits (everything
/// else ignored), when there is an even number of digits.
pub open spec fn hex_bytes_spec(s: Seq<char>) -> Option<Seq<u8>> {
    let d = keep_hex(s);
    if d.len() % 2 != 0 {
        None
    } else {
        Some(hex_pairs(d))
    }
}

/// The message of a response with an odd number of hexadecimal digits.
pub open spec fn odd_hex_message(s: Seq<char>) -> Seq<char> {
    "odd hex length in response: "@ + debug_text(s)
}

fn pairs_of_digits(d: &Vec<char>) -> (r: Vec<u8>)
    requires
        forall|i: int| 0 <= i < d@.len() ==> is_hex_digit(#[trigger] d@[i]),
        d@.len() % 2 == 0,
    ensures
        r@ == hex_pairs(d@),
{
    let mut out: Vec<u8> = Vec::new();
    let mut i: usize = 0;
    while i + 1 < d.len()
        invariant
            d@.len() % 2 == 0,
            forall|i: int| 0 <= i < d@.len() ==> is_hex_digit(#[trigger] d@[i]),
            i % 2 == 0,
            i <= d@.len(),
            out@.len() == i / 2,
            forall|k: int|
                0 <= k < out@.len() ==> out@[k] == (hex_value(d@[2 * k]) * 16 + hex_value(
                    d@[2 * k + 1],
                )) as u8,
        decreases d@.len() - i,
    {
        let h: u8 = hex_digit_value(d[i]);
        let l: u8 = hex_digit_value(d[i + 1]);
        out.push(h * 16 + l);
        i += 2;
    }
    assert(out@ =~= hex_pairs(d@));
    out
}

/// Bytes of the hexadecimal digits of a character sequence.
pub fn hex_bytes_of_chars(s: &Vec<char>, original: &str) -> (r: Result<Vec<u8>, Error>)
    ensures
        match hex_bytes_spec(s@) {
            Some(b) => r matches Ok(v) && v@ == b,
            None => r matches Err(Error::Decode(m)) && m@ == odd_hex_message(original@),
        },
{
    let d = hex_digits_of(s);
    proof {
        lemma_keep_hex_all_hex(s@);
    }
    if d.len() % 2 != 0 {
        let q = debug_quoted(original);
        return Err(Error::Decode(concat("odd hex length in response: ", q.as_str())));
    }
    Ok(pairs_of_digits(&d))
}

/// Parse whitespace-tolerant hex response into bytes.
pub fn parse_hex_bytes(s: &str) -> (r: Result<Vec<u8>, Error>)
    ensures
        match hex_bytes_spec(s@) {
            Some(b) => r matches Ok(v) && v@ == b,
            None => r matches Err(Error::Decode(m)) && m@ == odd_hex_message(s@),
        },
{
    let c = chars_of(s);
    hex_bytes_of_chars(&c, s)
}

// ---------------------------------------------------------------------------
// Support bitmaps (Mode 01 PID 00 / 20 / 40 ...)
// ---------------------------------------------------------------------------

/// The first line of `ls` that is not blank, trimmed.
pub open spec fn first_filled_line(ls: Seq<Seq<char>>) -> Option<Seq<char>>
    decreases ls.len(),
{
    if ls.len() == 0 {
        None
    } else if trim(ls[0]).len() > 0 {
        Some(trim(ls[0]))
    } else {
        first_filled_line(ls.drop_first())
    }
}

/// The line a support bitmap is read from: the first non-blank line, trimmed,
/// or the whole response when every line is blank.
pub open spec fn bitmap_line(s: Seq<char>) -> Seq<char> {
    match first_filled_line(lines(s)) {
        Some(l) => l,
        None => s,
    }
}

/// Bit `k` (0 = most significant bit of the first byte) of a bitmap.
pub open spec fn bit_is_set(data: Seq<u8>, k: int) -> bool {
    data[k / 8] & (0x80u8 >> ((k % 8) as u8)) != 0
}

/// PIDs `base + k + 1` for the set bits `k < n` of a 4-byte bitmap, ascending.
pub open spec fn supported_upto(data: Seq<u8>, base: u8, n: int) -> Seq<u8>
    decreases n,
{
    if n <= 0 {
        Seq::empty()
    } else if bit_is_set(data, n - 1) {
        supported_upto(data, base, n - 1).push((base + n) as u8)
    } else {
        supported_upto(data, base, n - 1)
    }
}

/// The support-bitmap bytes after the `41 xx` header, when there are enough.
pub open spec fn bitmap_data(s: Seq<char>) -> Option<Seq<u8>> {
    match hex_bytes_spec(bitmap_line(s)) {
        Some(b) => if b.len() >= 6 {
            Some(b.subrange(2, 6))
        } else {
            None
        },
        None => None,
    }
}

/// Every supported PID the bitmap names fits in a byte.
pub open spec fn bitmap_fits(s: Seq<char>, base: u8) -> bool {
    match bitmap_data(s) {
        Some(d) => data_fits(d, base),
        None => true,
    }
}

/// Every PID a 4-byte bitmap names fits in a byte.
pub open spec fn data_fits(d: Seq<u8>, base: u8) -> bool {
    forall|k: int| 0 <= k < 32 && #[trigger] bit_is_set(d, k) ==> base + k + 1 <= 255
}

pub proof fn lemma_low_base_fits(s: Seq<char>, base: u8)
    requires
        base <= 0xDF,
    ensures
        bitmap_fits(s, base),
{
}

fn first_filled(ls: &Vec<Vec<char>>) -> (r: Option<Vec<char>>)
    ensures
        match first_filled_line(cviews(ls@)) {
            Some(l) => r matches Some(v) && v@ == l,
            None => r is None,
        },
{
    let mut i: usize = 0;
    assert(cviews(ls@).subrange(0, ls@.len() as int) =~= cviews(ls@));
    while i < ls.len()
        invariant
            i <= ls@.len(),
            first_filled_line(cviews(ls@)) == first_filled_line(cviews(ls@).subrange(
                i as int,
                ls@.len() as int,
            )),
        decreases ls@.len() - i,
    {
        let t = trim_chars(&ls[i]);
        proof {
            let rest = cviews(ls@).subrange(i as int, ls@.len() as int);
            assert(rest[0] == ls@[i as int]@);
            assert(rest.drop_first() =~= cviews(ls@).subrange(i + 1, ls@.len() as int));
        }
        if t.len() > 0 {
            return Some(t);
        }
        i += 1;
    }
    None
}

/// Parse Mode 01 PID 00 (and optional 20/40/…) support bitmaps into PID numbers.
pub fn pid_supported_bitmap(response: &str, base: u8) -> (r: Result<Vec<u8>, Error>)
    requires
        bitmap_fits(response@, base),
    ensures
        match bitmap_data(response@) {
            Some(d) => r matches Ok(v) && v@ == supported_upto(d, base, 32),
            None => r matches Err(Error::Decode(m)) && m@ == match hex_bytes_spec(
                bitmap_line(response@),
            ) {
                None => odd_hex_message(bitmap_line(response@)),
                Some(_) => "support bitmap too short"@,
            },
        },
{
    let all = chars_of(response);
    let ls = lines_of(&all);
    let line = match first_filled(&ls) {
        Some(l) => l,
        None => all,
    };
    assert(line@ == bitmap_line(response@));
    let line_text = string_of(&line);
    let bytes = match hex_bytes_of_chars(&line, line_text.as_str()) {
        Ok(b) => b,
        Err(e) => return Err(e),
    };
    if bytes.len() < 6 {
        return Err(Error::Decode(owned("support bitmap too short")));
    }
    let ghost data = bytes@.subrange(2, 6);
    assert(bitmap_data(response@) == Some(data));
    assert(data_fits(data, base));
    let mut pids: Vec<u8> = Vec::new();
    let mut k: usize = 0;
    while k < 32
        invariant
            bytes@.len() >= 6,
            data == bytes@.subrange(2, 6),
            bitmap_data(response@) == Some(data),
            data_fits(data, base),
            k <= 32,
            pids@ == supported_upto(data, base, k as int),
        decreases 32 - k,
    {
        let byte: u8 = bytes[2 + k / 8];
        let bit: u8 = (k % 8) as u8;
        if byte & (0x80u8 >> bit) != 0 {
            assert(bit_is_set(data, k as int));
            assert(base + k + 1 <= 255);
            pids.push(base + (k as u8) + 1);
        }
        k += 1;
    }
    Ok(pids)
}

// ---------------------------------------------------------------------------
// VIN (Mode 09 PID 02)
// ---------------------------------------------------------------------------

/// End of the run of at most three hexadecimal digits that starts at `i`.
pub open spec fn hex_run(s: Seq<char>, i: int) -> int {
    if i < s.len() && is_hex_digit(s[i]) {
        if i + 1 < s.len() && is_hex_digit(s[i + 1]) {
            if i + 2 < s.len() && is_hex_digit(s[i + 2]) {
                i + 3
            } else {
                i + 2
            }
        } else {
            i + 1
        }
    } else {
        i
    }
}

/// Whether an ELM frame index such as `0:` or `014:` starts at `i`: one to three
/// hex digits and a colon, at the start, after a non-hex character, or a
/// single digit.
pub open spec fn marker_at(s: Seq<char>, i: int) -> bool {
    let j = hex_run(s, i);
    j > i && j < s.len() && s[j] == ':' && (i == 0 || !is_hex_digit(s[i - 1]) || j - i == 1)
}

/// `s[i..]` with ELM frame markers removed.
pub open spec fn strip_markers_from(s: Seq<char>, i: int) -> Seq<char>
    decreases s.len() - i,
{
    if i < 0 || i >= s.len() {
        Seq::empty()
    } else if marker_at(s, i) {
        strip_markers_from(s, hex_run(s, i) + 1)
    } else {
        seq![s[i]] + strip_markers_from(s, i + 1)
    }
}

/// Remove ELM ISO-TP frame indices like `0:`, `1:`, `014:` from a response blob.
fn strip_elm_frame_markers(s: &Vec<char>) -> (r: Vec<char>)
    ensures
        r@ == strip_markers_from(s@, 0),
{
    let n: usize = s.len();
    let mut out: Vec<char> = Vec::new();
    let mut i: usize = 0;
    while i < n
        invariant
            n == s@.len(),
            i <= n,
            out@ + strip_markers_from(s@, i as int) == strip_markers_from(s@, 0),
        decreases n - i,
    {
        let mut j: usize = i;
        while j < n && j - i < 3 && hex_digit(s[j])
            invariant
                n == s@.len(),
                i <= j <= n,
                j - i <= 3,
                forall|m: int| i <= m < j ==> is_hex_digit(#[trigger] s@[m]),
            decreases n - j,
        {
            j += 1;
        }
        assert(j == hex_run(s@, i as int));
        if j > i && j < n && s[j] == ':' {
            let prev_ok = i == 0 || !hex_digit(s[i - 1]);
            let single_digit_index = j - i == 1;
            if prev_ok || single_digit_index {
                assert(marker_at(s@, i as int));
                i = j + 1;
                continue;
            }
        }
        assert(!marker_at(s@, i as int));
        let ghost before = out@;
        out.push(s[i]);
        assert(before + strip_markers_from(s@, i as int) =~= out@ + strip_markers_from(
            s@,
            i + 1,
        ));
        i += 1;
    }
    assert(strip_markers_from(s@, i as int) =~= Seq::<char>::empty());
    assert(out@ =~= out@ + strip_markers_from(s@, i as int));
    out
}

/// The hexadecimal digits a VIN response is decoded from: digits left after
/// frame markers are removed, from the first `4902` on when there is one, with
/// a leading digit dropped to make the count even.
pub open spec fn vin_hex(s: Seq<char>) -> Seq<char> {
    let h0 = keep_hex(strip_markers_from(s, 0));
    let h1 = match first_occurrence(upper(h0), "4902"@) {
        Some(p) => h0.subrange(p, h0.len() as int),
        None => h0,
    };
    if h1.len() % 2 == 1 {
        h1.subrange(1, h1.len() as int)
    } else {
        h1
    }
}

/// First position at or after `i` where bytes `x, y` follow each other.
pub open spec fn first_pair_from(b: Seq<u8>, x: u8, y: u8, i: int) -> Option<int>
    decreases b.len() - i,
{
    if i < 0 || i + 1 >= b.len() {
        None
    } else if b[i] == x && b[i + 1] == y {
        Some(i)
    } else {
        first_pair_from(b, x, y, i + 1)
    }
}

/// The VIN payload: what follows the positive response `49 02` (and an
/// optional count byte `01`), or all bytes when there is no `49 02`.
pub open spec fn vin_payload(b: Seq<u8>) -> Seq<u8> {
    match first_pair_from(b, 0x49, 0x02, 0) {
        Some(i) => {
            let rest = b.subrange(i + 2, b.len() as int);
            if rest.len() > 0 && rest[0] == 0x01 {
                rest.subrange(1, rest.len() as int)
            } else {
                rest
            }
        },
        None => b,
    }
}

pub open spec fn is_vin_byte(b: u8) -> bool {
    (0x41 <= b && b <= 0x5A) || (0x30 <= b && b <= 0x39)
}

/// The upper-case letters and digits of a payload, as characters.
pub open spec fn vin_chars(p: Seq<u8>) -> Seq<char>
    decreases p.len(),
{
    if p.len() == 0 {
        Seq::empty()
    } else if is_vin_byte(p.last()) {
        vin_chars(p.drop_last()).push(p.last() as char)
    } else {
        vin_chars(p.drop_last())
    }
}

/// The letters and digits of `s`.
pub open spec fn keep_alnum(s: Seq<char>) -> Seq<char>
    decreases s.len(),
{
    if s.len() == 0 {
        Seq::empty()
    } else if is_alnum(s.last()) {
        keep_alnum(s.drop_last()).push(s.last())
    } else {
        keep_alnum(s.drop_last())
    }
}

/// The last 17 letters and digits, upper-cased, when there are at least 17.
pub open spec fn vin17(s: Seq<char>) -> Option<Seq<char>> {
    let c = upper(keep_alnum(s));
    if c.len() >= 17 {
        Some(c.subrange(c.len() - 17, c.len() as int))
    } else {
        None
    }
}

/// The VIN a Mode 09 PID 02 response spells, if any.
pub open spec fn vin_spec(s: Seq<char>) -> Option<Seq<char>> {
    let h = vin_hex(s);
    if h.len() < 6 {
        None
    } else {
        vin17(vin_chars(vin_payload(hex_pairs(h))))
    }
}

fn first_pair(b: &Vec<u8>, x: u8, y: u8) -> (r: Option<usize>)
    ensures
        match first_pair_from(b@, x, y, 0) {
            Some(i) => r == Some(i as usize),
            None => r is None,
        },
{
    let mut i: usize = 0;
    while b.len() >= 2 && i < b.len() - 1
        invariant
            i <= b@.len(),
            first_pair_from(b@, x, y, 0) == first_pair_from(b@, x, y, i as int),
        decreases b@.len() - i,
    {
        if b[i] == x && b[i + 1] == y {
            return Some(i);
        }
        i += 1;
    }
    None
}

fn keep_vin_bytes(p: &Vec<u8>, from: usize) -> (r: Vec<char>)
    requires
        from <= p@.len(),
    ensures
        r@ == vin_chars(p@.subrange(from as int, p@.len() as int)),
{
    let mut r: Vec<char> = Vec::new();
    let mut i: usize = from;
    while i < p.len()
        invariant
            from <= i <= p@.len(),
            r@ == vin_chars(p@.subrange(from as int, i as int)),
        decreases p@.len() - i,
    {
        proof {
            let pre = p@.subrange(from as int, i + 1);
            assert(pre.drop_last() =~= p@.subrange(from as int, i as int));
            assert(pre.last() == p@[i as int]);
        }
        let b: u8 = p[i];
        if (0x41 <= b && b <= 0x5A) || (0x30 <= b && b <= 0x39) {
            r.push(b as char);
        }
        i += 1;
    }
    r
}

fn alnum_of(s: &Vec<char>) -> (r: Vec<char>)
    ensures
        r@ == keep_alnum(s@),
{
    let mut r: Vec<char> = Vec::new();
    for i in 0..s.len()
        invariant
            r@ == keep_alnum(s@.subrange(0, i as int)),
    {
        proof {
            assert(s@.subrange(0, i + 1).drop_last() =~= s@.subrange(0, i as int));
        }
        if alnum(s[i]) {
            r.push(s[i]);
        }
    }
    assert(s@.subrange(0, s@.len() as int) =~= s@);
    r
}

fn extract_vin17(s: &Vec<char>) -> (r: Option<String>)
    ensures
        match vin17(s@) {
            Some(v) => r matches Some(x) && x@ == v,
            None => r is None,
        },
{
    let cleaned = upper_of(&alnum_of(s));
    let n: usize = cleaned.len();
    if n >= 17 {
        let mut v: Vec<char> = Vec::new();
        let mut k: usize = n - 17;
        while k < n
            invariant
                n == cleaned@.len(),
                n >= 17,
                n - 17 <= k <= n,
                v@ == cleaned@.subrange(n - 17, k as int),
            decreases n - k,
        {
            v.push(cleaned[k]);
            k += 1;
            assert(v@ =~= cleaned@.subrange(n - 17, k as int));
        }
        return Some(string_of(&v));
    }
    None
}

/// The message of the decode error for a reply that holds no VIN.
pub open spec fn vin_error_message(response: Seq<char>) -> Seq<char> {
    if vin_hex(response).len() < 6 {
        "VIN response too short"@
    } else {
        "could not parse VIN from: "@ + debug_text(response)
    }
}

/// Extract VIN ASCII from Mode 09 PID 02 multi-frame style responses.
pub fn parse_vin(response: &str) -> (r: Result<String, Error>)
    ensures
        match vin_spec(response@) {
            Some(v) => r matches Ok(x) && x@ == v,
            None => r matches Err(Error::Decode(m)) && m@ == vin_error_message(response@),
        },
{
    let all = chars_of(response);
    let stripped = strip_elm_frame_markers(&all);
    let h0 = hex_digits_of(&stripped);
    let pat = chars_of("4902");
    let up = upper_of(&h0);
    let mut h1: Vec<char> = Vec::new();
    match find(&up, &pat) {
        Some(p) => {
            proof {
                lemma_first_occurrence_some(up@, pat@, 0);
            }
            let mut k: usize = p;
            while k < h0.len()
                invariant
                    p <= k <= h0@.len(),
                    h1@ == h0@.subrange(p as int, k as int),
                decreases h0@.len() - k,
            {
                h1.push(h0[k]);
                k += 1;
                assert(h1@ =~= h0@.subrange(p as int, k as int));
            }
        },
        None => {
            h1 = h0.clone();
        },
    }
    let mut hex: Vec<char> = Vec::new();
    if h1.len() % 2 == 1 {
        let mut k: usize = 1;
        while k < h1.len()
            invariant
                1 <= k <= h1@.len(),
                hex@ == h1@.subrange(1, k as int),
            decreases h1@.len() - k,
        {
            hex.push(h1[k]);
            k += 1;
            assert(hex@ =~= h1@.subrange(1, k as int));
        }
    } else {
        hex = h1;
    }
    assert(hex@ == vin_hex(response@));
    if hex.len() < 6 {
        return Err(Error::Decode(owned("VIN response too short")));
    }
    proof {
        lemma_keep_hex_all_hex(stripped@);
        assert forall|i: int| 0 <= i < hex@.len() implies is_hex_digit(#[trigger] hex@[i]) by {
            let h0v = keep_hex(stripped@);
            assert(h0@ == h0v);
            if h1@.len() % 2 == 1 {
                assert(hex@[i] == h1@[i + 1]);
            }
            match first_occurrence(up@, pat@) {
                Some(p) => {
                    assert(h1@ == h0@.subrange(p, h0@.len() as int));
                },
                None => {},
            }
        }
    }
    let bytes = pairs_of_digits(&hex);
    let payload_start: usize;
    match first_pair(&bytes, 0x49, 0x02) {
        Some(i) => {
            proof {
                lemma_first_pair_bounds(bytes@, 0x49, 0x02, 0);
            }
            if i + 2 < bytes.len() && bytes[i + 2] == 0x01 {
                payload_start = i + 3;
            } else {
                payload_start = i + 2;
            }
        },
        None => {
            payload_start = 0;
        },
    }
    proof {
        let b = bytes@;
        match first_pair_from(b, 0x49, 0x02, 0) {
            Some(i) => {
                lemma_first_pair_bounds(b, 0x49, 0x02, 0);
                let rest = b.subrange(i + 2, b.len() as int);
                if rest.len() > 0 && rest[0] == 0x01 {
                    assert(rest.subrange(1, rest.len() as int) =~= b.subrange(
                        i + 3,
                        b.len() as int,
                    ));
                }
            },
            None => {
                assert(b.subrange(0, b.len() as int) =~= b);
            },
        }
        assert(vin_payload(b) == b.subrange(payload_start as int, b.len() as int));
    }
    let s = keep_vin_bytes(&bytes, payload_start);
    match extract_vin17(&s) {
        Some(v) => Ok(v),
        None => {
            let q = debug_quoted(response);
            Err(Error::Decode(concat("could not parse VIN from: ", q.as_str())))
        },
    }
}

proof fn lemma_first_pair_bounds(b: Seq<u8>, x: u8, y: u8, i: int)
    ensures
        first_pair_from(b, x, y, i) matches Some(k) ==> 0 <= i <= k && k + 1 < b.len(),
    decreases b.len() - i,
{
    if !(i < 0 || i + 1 >= b.len()) && !(b[i] == x && b[i + 1] == y) {
        lemma_first_pair_bounds(b, x, y, i + 1);
    }
}

} // verus!

verus! {

/// Decode a Mode 01 response line into a live value when possible.
pub fn decode_pid(response: &str, expect_pid: Option<u8>) -> (r: Result<LiveValue, Error>)
    ensures
        match crate::j1979::decode::decode_spec(response@, expect_pid) {
            Some(v) => r matches Ok(x) && x@ == v,
            None => r matches Err(Error::Decode(m)) && m@ == crate::j1979::decode::decode_error(
                response@,
                expect_pid,
            ),
        },
{
    crate::j1979::decode::decode_mode_pid(response, 0x01, expect_pid)
}

} // verus!
