//! Diagnostic trouble code parse and commands.
use crate::error::Error;
use crate::j1979::pid::{hex_bytes_of_chars, hex_bytes_spec, odd_hex_message};
use crate::text::{
    append_hex2, chars_of, concat, contains, contains_chars, hex2, hex_char, hex_char_of,
    hex_digits_of, keep_hex, lemma_keep_hex_all_hex, lemma_keep_hex_of_hex, owned, push_char,
    string_of, trim, trim_chars, upper, upper_of,
};
use vstd::prelude::*;

verus! {

/// DTC readiness / bucket for display.
#[derive(Debug, Clone, Copy, PartialEq, Eq, Structural)]
pub enum DtcStatus {
    Stored,
    Pending,
    Permanent,
}

/// One diagnostic trouble code.
#[derive(Debug, Clone)]
pub struct Dtc {
    pub code: String,
    pub status: DtcStatus,
    pub raw: String,
}

pub struct DtcView {
    pub code: Seq<char>,
    pub status: DtcStatus,
    pub raw: Seq<char>,
}

impl View for Dtc {
    type V = DtcView;

    open spec fn view(&self) -> DtcView {
        DtcView { code: self.code@, status: self.status, raw: self.raw@ }
    }
}

pub open spec fn dtc_views(v: Seq<Dtc>) -> Seq<DtcView> {
    v.map_values(|d: Dtc| d@)
}

/// Mode 03 / 07 / 0A request helpers.
pub fn dtc_command(mode: u8) -> (r: String)
    ensures
        r@ == hex2(mode),
{
    let mut r = String::new();
    append_hex2(&mut r, mode);
    r
}

/// Mode 04 clear DTCs — write-gated at session layer.
pub fn clear_dtc_command() -> (r: &'static str)
    ensures
        r@ == "04"@,
{
    "04"
}

/// The letter of the system a DTC's first byte names.
pub open spec fn dtc_system(a: u8) -> char {
    if a / 64 == 0 {
        'P'
    } else if a / 64 == 1 {
        'C'
    } else if a / 64 == 2 {
        'B'
    } else {
        'U'
    }
}

/// The five-character code of a DTC, such as `P0301`.
pub open spec fn dtc_code(a: u8, b: u8) -> Seq<char> {
    seq![dtc_system(a), ('0' as int + (a / 16) % 4) as char, hex_char(a as int % 16)] + hex2(b)
}

pub open spec fn dtc_view(a: u8, b: u8, status: DtcStatus) -> DtcView {
    DtcView { code: dtc_code(a, b), status, raw: hex2(a) + hex2(b) }
}

/// The DTCs of the byte pairs from position `i` on; all-zero pairs are padding.
pub open spec fn dtcs_from(b: Seq<u8>, i: int, status: DtcStatus) -> Seq<DtcView>
    decreases b.len() - i,
{
    if i < 0 || i + 1 >= b.len() {
        Seq::empty()
    } else if b[i] == 0 && b[i + 1] == 0 {
        dtcs_from(b, i + 2, status)
    } else {
        seq![dtc_view(b[i], b[i + 1], status)] + dtcs_from(b, i + 2, status)
    }
}

/// Where the code pairs start: after the service byte (`>= 0x40`), and after a
/// count byte when it is 1..=16 and exactly matches the remaining pairs.
pub open spec fn dtc_start(b: Seq<u8>) -> int {
    if b[0] >= 0x40 {
        if 1 < b.len() && b[1] > 0 && b[1] <= 16 && 2 + 2 * b[1] == b.len() {
            2
        } else {
            1
        }
    } else {
        0
    }
}

/// What a Mode 03/07/0A response holds; `None` when its hex digits are odd.
pub open spec fn dtcs_spec(s: Seq<char>, status: DtcStatus) -> Option<Seq<DtcView>> {
    if contains(s, "NO DATA"@) || trim(s).len() == 0 {
        Some(Seq::empty())
    } else {
        match hex_bytes_spec(keep_hex(s)) {
            None => None,
            Some(b) => if b.len() == 0 {
                Some(Seq::empty())
            } else {
                Some(dtcs_from(b, dtc_start(b), status))
            },
        }
    }
}

fn format_dtc(a: u8, b: u8) -> (r: String)
    ensures
        r@ == dtc_code(a, b),
{
    let system = if a / 64 == 0 {
        'P'
    } else if a / 64 == 1 {
        'C'
    } else if a / 64 == 2 {
        'B'
    } else {
        'U'
    };
    let mut r = String::new();
    push_char(&mut r, system);
    push_char(&mut r, ((a / 16) % 4 + 48) as char);
    push_char(&mut r, hex_char_of(a % 16));
    append_hex2(&mut r, b);
    r
}

/// Parse Mode 03/07/0A style responses into DTC list.
pub fn parse_dtcs(response: &str, status: DtcStatus) -> (r: Result<Vec<Dtc>, Error>)
    ensures
        match dtcs_spec(response@, status) {
            Some(d) => r matches Ok(v) && dtc_views(v@) == d,
            None => r matches Err(Error::Decode(m)) && m@ == odd_hex_message(keep_hex(response@)),
        },
{
    let all = chars_of(response);
    let no_data = chars_of("NO DATA");
    if contains_chars(&all, &no_data) || trim_chars(&all).len() == 0 {
        let v: Vec<Dtc> = Vec::new();
        assert(dtc_views(v@) =~= Seq::<DtcView>::empty());
        return Ok(v);
    }
    let hex = hex_digits_of(&all);
    proof {
        lemma_keep_hex_all_hex(all@);
        lemma_keep_hex_of_hex(hex@);
    }
    let hex_text = string_of(&hex);
    let bytes = match hex_bytes_of_chars(&hex, hex_text.as_str()) {
        Ok(b) => b,
        Err(e) => return Err(e),
    };
    if bytes.len() == 0 {
        let v: Vec<Dtc> = Vec::new();
        assert(dtc_views(v@) =~= Seq::<DtcView>::empty());
        return Ok(v);
    }
    let n: usize = bytes.len();
    let mut i: usize = 0;
    if bytes[0] >= 0x40 {
        i = 1;
        if i < n {
            let count: usize = bytes[i] as usize;
            if count > 0 && count <= 16 && i + 1 + count * 2 == n {
                i += 1;
            }
        }
    }
    assert(i == dtc_start(bytes@));
    let mut out: Vec<Dtc> = Vec::new();
    while n >= 2 && i < n - 1
        invariant
            n == bytes@.len(),
            i <= n,
            dtc_views(out@) + dtcs_from(bytes@, i as int, status) == dtcs_from(
                bytes@,
                dtc_start(bytes@),
                status,
            ),
        decreases n - i,
    {
        let a: u8 = bytes[i];
        let b: u8 = bytes[i + 1];
        let ghost before = dtc_views(out@);
        i += 2;
        if a == 0 && b == 0 {
            continue;
        }
        let mut raw = String::new();
        append_hex2(&mut raw, a);
        append_hex2(&mut raw, b);
        out.push(Dtc { code: format_dtc(a, b), status, raw });
        assert(dtc_views(out@) =~= before.push(dtc_view(a, b, status)));
        assert(before + dtcs_from(bytes@, i - 2, status) =~= dtc_views(out@) + dtcs_from(
            bytes@,
            i as int,
            status,
        ));
    }
    assert(dtcs_from(bytes@, i as int, status) =~= Seq::<DtcView>::empty());
    assert(dtc_views(out@) =~= dtc_views(out@) + dtcs_from(bytes@, i as int, status));
    Ok(out)
}

/// Whether a clear-DTC response reports failure.
pub open spec fn clear_refused(s: Seq<char>) -> bool {
    contains(upper(s), "NO DATA"@) || contains(upper(s), "UNABLE"@) || contains(
        upper(s),
        "ERROR"@,
    )
}

/// Validate that clear was acknowledged (very soft).
pub fn parse_clear_ack(response: &str) -> (r: Result<(), Error>)
    ensures
        clear_refused(response@) ==> (r matches Err(Error::Protocol(m)) && m@
            == "clear DTC failed: "@ + response@),
        !clear_refused(response@) ==> r is Ok,
{
    let up = upper_of(&chars_of(response));
    if contains_chars(&up, &chars_of("NO DATA")) || contains_chars(&up, &chars_of("UNABLE"))
        || contains_chars(&up, &chars_of("ERROR")) {
        return Err(Error::Protocol(concat("clear DTC failed: ", response)));
    }
    Ok(())
}

} // verus!
