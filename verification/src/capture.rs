//! Versioned capture session package for reuse in other projects.
use crate::bus::{bus_tag_text, AdapterCapabilities, BusTag};
use crate::transport::connect::{decimal, decimal_string};
use crate::j1979::pid::{Fraction, LiveValue};
use crate::text::{chars_of, contains, contains_chars, owned, push_char, push_str, string_of};
use crate::transport::{frame_views, utc_now, Frame, FrameView, Timestamp};
use vstd::prelude::*;

verus! {

/// Capture format version (bump when on-disk schema breaks).
pub const CAPTURE_FORMAT_VERSION: u32 = 1;

/// Session metadata (`meta.toml`).
#[derive(Debug, Clone)]
pub struct SessionMeta {
    pub format_version: u32,
    pub software: String,
    pub started_at: Timestamp,
    pub ended_at: Option<Timestamp>,
    pub vin: Option<String>,
    pub adapter_path: String,
    pub capabilities: AdapterCapabilities,
    pub profile_id: Option<String>,
    pub notes: String,
}

impl SessionMeta {
    /// Metadata of a session that starts now.
    pub fn new(software: &str) -> (r: Self)
        ensures
            r.format_version == CAPTURE_FORMAT_VERSION,
            r.software@ == software@,
            r.ended_at is None,
            r.vin is None,
            r.adapter_path@.len() == 0,
            !r.capabilities.elm_compatible && !r.capabilities.stn && !r.capabilities.ms_can,
            r.capabilities.identity@.len() == 0,
            r.profile_id is None,
            r.notes@.len() == 0,
    {
        SessionMeta {
            format_version: CAPTURE_FORMAT_VERSION,
            software: owned(software),
            started_at: utc_now(),
            ended_at: None,
            vin: None,
            adapter_path: String::new(),
            capabilities: AdapterCapabilities::default(),
            profile_id: None,
            notes: String::new(),
        }
    }
}

/// One decoded signal sample for timeseries export.
#[derive(Debug, Clone)]
pub struct SignalSample {
    pub ts: Timestamp,
    pub name: String,
    pub value: Fraction,
    pub unit: String,
    pub mode: u8,
    pub pid: u8,
    pub bus: BusTag,
}

/// Full capture session in memory.
#[derive(Debug, Clone)]
pub struct CaptureSession {
    pub meta: SessionMeta,
    pub frames: Vec<Frame>,
    pub signals: Vec<SignalSample>,
    /// Optional vehicle snapshot YAML text.
    pub vehicle_yaml: Option<String>,
}

impl CaptureSession {
    /// An empty capture that starts now.
    pub fn new(software: &str) -> (r: Self)
        ensures
            r.meta.software@ == software@,
            r.meta.format_version == CAPTURE_FORMAT_VERSION,
            r.meta.vin is None,
            r.meta.ended_at is None,
            r.frames@.len() == 0,
            r.signals@.len() == 0,
            r.vehicle_yaml is None,
    {
        CaptureSession {
            meta: SessionMeta::new(software),
            frames: Vec::new(),
            signals: Vec::new(),
            vehicle_yaml: None,
        }
    }

    pub fn push_frame(&mut self, frame: Frame)
        ensures
            final(self).frames@ == old(self).frames@.push(frame),
            final(self).signals@ == old(self).signals@,
            final(self).meta == old(self).meta,
            final(self).vehicle_yaml == old(self).vehicle_yaml,
    {
        self.frames.push(frame);
    }

    pub fn push_signal(&mut self, sample: SignalSample)
        ensures
            final(self).signals@ == old(self).signals@.push(sample),
            final(self).frames@ == old(self).frames@,
            final(self).meta == old(self).meta,
            final(self).vehicle_yaml == old(self).vehicle_yaml,
    {
        self.signals.push(sample);
    }

    /// Records a decoded live value as a sample stamped now.
    pub fn push_live(&mut self, live: &LiveValue, bus: BusTag)
        ensures
            final(self).signals@.len() == old(self).signals@.len() + 1,
            final(self).signals@.drop_last() == old(self).signals@,
            ({
                let s = final(self).signals@.last();
                &&& s.name@ == live.name@
                &&& s.value == live.value
                &&& s.unit@ == live.unit@
                &&& s.mode == live.mode
                &&& s.pid == live.pid
                &&& s.bus == bus
            }),
            final(self).frames@ == old(self).frames@,
            final(self).meta == old(self).meta,
            final(self).vehicle_yaml == old(self).vehicle_yaml,
    {
        let ghost before = self.signals@;
        self.signals.push(
            SignalSample {
                ts: utc_now(),
                name: live.name.clone(),
                value: live.value,
                unit: live.unit.clone(),
                mode: live.mode,
                pid: live.pid,
                bus,
            },
        );
        assert(self.signals@.drop_last() =~= before);
    }
}

/// A CSV field: quoted, with inner quotes doubled, when it holds a comma or a
/// quote; otherwise unchanged.
pub open spec fn csv_field(s: Seq<char>) -> Seq<char> {
    if contains(s, ","@) || contains(s, "\""@) {
        seq!['"'] + double_quotes(s) + seq!['"']
    } else {
        s
    }
}

/// `s` with every `"` doubled.
pub open spec fn double_quotes(s: Seq<char>) -> Seq<char>
    decreases s.len(),
{
    if s.len() == 0 {
        Seq::empty()
    } else if s.last() == '"' {
        double_quotes(s.drop_last()) + seq!['"', '"']
    } else {
        double_quotes(s.drop_last()).push(s.last())
    }
}

/// Escape one field of `signals.csv`.
pub fn escape_csv(s: &str) -> (r: String)
    ensures
        r@ == csv_field(s@),
{
    let c = chars_of(s);
    if contains_chars(&c, &chars_of(",")) || contains_chars(&c, &chars_of("\"")) {
        let mut out: Vec<char> = Vec::new();
        out.push('"');
        for i in 0..c.len()
            invariant
                out@ == seq!['"'] + double_quotes(c@.subrange(0, i as int)),
        {
            proof {
                assert(c@.subrange(0, i + 1).drop_last() =~= c@.subrange(0, i as int));
            }
            if c[i] == '"' {
                out.push('"');
                out.push('"');
            } else {
                out.push(c[i]);
            }
            assert(out@ =~= seq!['"'] + double_quotes(c@.subrange(0, i + 1)));
        }
        out.push('"');
        assert(c@.subrange(0, c@.len() as int) =~= c@);
        assert(out@ =~= seq!['"'] + double_quotes(c@) + seq!['"']);
        string_of(&out)
    } else {
        owned(s)
    }
}

/// Helper to build a frame pair for fixtures.
pub fn frame_pair(bus: BusTag, tx: &str, rx: &str) -> (r: (Frame, Frame))
    ensures
        r.0.dir == crate::transport::FrameDir::Tx && r.0.bus == bus && r.0.data@ == tx@,
        r.1.dir == crate::transport::FrameDir::Rx && r.1.bus == bus && r.1.data@ == rx@,
{
    (Frame::tx(bus, tx), Frame::rx(bus, rx))
}

/// Default capture output directory under cwd.
pub fn default_capture_root() -> (r: &'static str)
    ensures
        r@ == "captures"@,
{
    "captures"
}

} // verus!

verus! {

// ---------------------------------------------------------------------------
// Reading `signals.csv`
// ---------------------------------------------------------------------------

/// The time an RFC 3339 text stands for, in UTC, as chrono's
/// `DateTime::parse_from_rfc3339` reads it; `None` when it does not parse.
pub uninterp spec fn rfc3339_time(s: Seq<char>) -> Option<Timestamp>;

/// Parses an RFC 3339 time through `chrono::DateTime::parse_from_rfc3339`,
/// converted to UTC seconds and nanoseconds. The contract names chrono's
/// result: it depends on the text alone.
#[verifier::external_body]
fn parse_rfc3339(s: &str) -> (r: Option<Timestamp>)
    ensures
        r == rfc3339_time(s@),
{
    match chrono::DateTime::parse_from_rfc3339(s) {
        Ok(d) => {
            let u = d.with_timezone(&chrono::Utc);
            Some(Timestamp { secs: u.timestamp(), nanos: u.timestamp_subsec_nanos() })
        },
        Err(_) => None,
    }
}

/// The comma-separated fields of a line, as `str::split(',')` gives them
/// (one field for a line without commas, empty fields kept).
pub open spec fn csv_split(s: Seq<char>) -> Seq<Seq<char>>
    decreases s.len(),
{
    if s.len() == 0 {
        seq![Seq::empty()]
    } else if s.last() == ',' {
        csv_split(s.drop_last()).push(Seq::empty())
    } else {
        let f = csv_split(s.drop_last());
        f.update(f.len() - 1, f.last().push(s.last()))
    }
}

proof fn lemma_csv_split_nonempty(s: Seq<char>)
    ensures
        csv_split(s).len() >= 1,
    decreases s.len(),
{
    if s.len() > 0 {
        lemma_csv_split_nonempty(s.drop_last());
    }
}

fn split_commas(s: &Vec<char>) -> (r: Vec<Vec<char>>)
    ensures
        crate::text::cviews(r@) == csv_split(s@),
{
    let mut done: Vec<Vec<char>> = Vec::new();
    let mut cur: Vec<char> = Vec::new();
    let mut i: usize = 0;
    while i < s.len()
        invariant
            i <= s@.len(),
            crate::text::cviews(done@).push(cur@) == csv_split(s@.subrange(0, i as int)),
        decreases s@.len() - i,
    {
        let ghost pre = s@.subrange(0, i + 1);
        proof {
            assert(pre.drop_last() =~= s@.subrange(0, i as int));
            lemma_csv_split_nonempty(pre.drop_last());
        }
        let ghost f = csv_split(pre.drop_last());
        if s[i] == ',' {
            let ghost before = crate::text::cviews(done@);
            let c = cur;
            done.push(c);
            cur = Vec::new();
            assert(crate::text::cviews(done@) =~= before.push(c@));
            assert(crate::text::cviews(done@).push(cur@) =~= f.push(Seq::empty()));
        } else {
            cur.push(s[i]);
            assert(crate::text::cviews(done@).push(cur@) =~= f.update(
                f.len() - 1,
                f.last().push(s@[i as int]),
            ));
        }
        i += 1;
    }
    assert(s@.subrange(0, s@.len() as int) =~= s@);
    let ghost before = crate::text::cviews(done@);
    done.push(cur);
    assert(crate::text::cviews(done@) =~= before.push(cur@));
    done
}

/// The value of a run of decimal digits.
pub open spec fn digits_value(d: Seq<char>) -> int
    decreases d.len(),
{
    if d.len() == 0 {
        0
    } else {
        digits_value(d.drop_last()) * 10 + (d.last() as int - '0' as int)
    }
}

/// Every character is a decimal digit.
pub open spec fn all_digits(d: Seq<char>) -> bool {
    forall|i: int| 0 <= i < d.len() ==> crate::text::is_digit(#[trigger] d[i])
}

/// A byte written in decimal as `u8::from_str` reads it: an optional `+`, then
/// at least one digit, worth at most 255.
pub open spec fn decimal_u8(s: Seq<char>) -> Option<u8> {
    let d = if s.len() > 0 && s[0] == '+' {
        s.drop_first()
    } else {
        s
    };
    if d.len() == 0 || !all_digits(d) {
        None
    } else if digits_value(d) > 255 {
        None
    } else {
        Some(digits_value(d) as u8)
    }
}

proof fn lemma_digits_value_nonneg(d: Seq<char>)
    requires
        forall|i: int| 0 <= i < d.len() ==> crate::text::is_digit(#[trigger] d[i]),
    ensures
        digits_value(d) >= 0,
    decreases d.len(),
{
    if d.len() > 0 {
        lemma_digits_value_nonneg(d.drop_last());
    }
}

fn parse_decimal_u8(s: &Vec<char>) -> (r: Option<u8>)
    ensures
        r == decimal_u8(s@),
{
    let start: usize = if s.len() > 0 && s[0] == '+' {
        1
    } else {
        0
    };
    let ghost d = if s@.len() > 0 && s@[0] == '+' {
        s@.drop_first()
    } else {
        s@
    };
    assert(d =~= s@.subrange(start as int, s@.len() as int));
    if start == s.len() {
        return None;
    }
    let mut acc: u32 = 0;
    let mut over = false;
    let mut i: usize = start;
    while i < s.len()
        invariant
            start <= i <= s@.len(),
            d == s@.subrange(start as int, s@.len() as int),
            d == (if s@.len() > 0 && s@[0] == '+' {
                s@.drop_first()
            } else {
                s@
            }),
            forall|k: int| start <= k < i ==> crate::text::is_digit(#[trigger] s@[k]),
            !over ==> acc == digits_value(s@.subrange(start as int, i as int)) && acc <= 255,
            over ==> digits_value(s@.subrange(start as int, i as int)) > 255,
        decreases s@.len() - i,
    {
        let c = s[i];
        if !crate::text::digit(c) {
            assert(d[i - start] == c);
            assert(!crate::text::is_digit(d[i - start]));
            assert(!all_digits(d));
            return None;
        }
        let ghost pre = s@.subrange(start as int, i + 1);
        proof {
            assert(pre.drop_last() =~= s@.subrange(start as int, i as int));
            assert(pre.last() == c);
            assert forall|k: int| 0 <= k < pre.drop_last().len() implies crate::text::is_digit(
                #[trigger] pre.drop_last()[k],
            ) by {
                assert(pre.drop_last()[k] == s@[start + k]);
            }
            lemma_digits_value_nonneg(pre.drop_last());
        }
        if !over {
            let v: u32 = acc * 10 + (c as u32 - 48);
            if v > 255 {
                over = true;
            } else {
                acc = v;
            }
        }
        i += 1;
    }
    assert(s@.subrange(start as int, s@.len() as int) == d);
    if over {
        None
    } else {
        Some(acc as u8)
    }
}

/// The fields of one `signals.csv` row, with the value column left as text.
#[derive(Debug, Clone)]
pub struct SignalFields {
    pub ts: Timestamp,
    pub name: String,
    pub value_text: String,
    pub unit: String,
    pub mode: u8,
    pub pid: u8,
    pub bus: BusTag,
}

pub struct SignalFieldsView {
    pub ts: Timestamp,
    pub name: Seq<char>,
    pub value_text: Seq<char>,
    pub unit: Seq<char>,
    pub mode: u8,
    pub pid: u8,
    pub bus: BusTag,
}

pub open spec fn signal_fields_view(r: Option<SignalFields>) -> Option<SignalFieldsView> {
    match r {
        Some(f) => Some(
            SignalFieldsView {
                ts: f.ts,
                name: f.name@,
                value_text: f.value_text@,
                unit: f.unit@,
                mode: f.mode,
                pid: f.pid,
                bus: f.bus,
            },
        ),
        None => None,
    }
}

/// What a `signals.csv` row holds: time, name, value text, unit, mode, PID and
/// bus (an unknown bus name reads as unknown); `None` with fewer than seven
/// fields or when the time, mode or PID does not parse.
pub open spec fn signal_fields_spec(line: Seq<char>) -> Option<SignalFieldsView> {
    let f = csv_split(line);
    if f.len() < 7 {
        None
    } else {
        match (rfc3339_time(f[0]), decimal_u8(f[4]), decimal_u8(f[5])) {
            (Some(ts), Some(mode), Some(pid)) => Some(
                SignalFieldsView {
                    ts,
                    name: f[1],
                    value_text: f[2],
                    unit: f[3],
                    mode,
                    pid,
                    bus: match crate::bus::bus_tag_named(crate::text::lower(f[6])) {
                        Some(b) => b,
                        None => BusTag::Unknown,
                    },
                },
            ),
            _ => None,
        }
    }
}

/// Splits one `signals.csv` row into its fields.
pub fn parse_signal_fields(line: &str) -> (r: Option<SignalFields>)
    ensures
        signal_fields_view(r) == signal_fields_spec(line@),
{
    let f = split_commas(&chars_of(line));
    if f.len() < 7 {
        return None;
    }
    let ts_text = string_of(&f[0]);
    let ts = match parse_rfc3339(ts_text.as_str()) {
        Some(t) => t,
        None => return None,
    };
    let mode = match parse_decimal_u8(&f[4]) {
        Some(m) => m,
        None => return None,
    };
    let pid = match parse_decimal_u8(&f[5]) {
        Some(p) => p,
        None => return None,
    };
    let bus_text = string_of(&f[6]);
    let bus = match BusTag::parse(bus_text.as_str()) {
        Ok(b) => b,
        Err(_) => BusTag::Unknown,
    };
    Some(
        SignalFields {
            ts,
            name: string_of(&f[1]),
            value_text: string_of(&f[2]),
            unit: string_of(&f[3]),
            mode,
            pid,
            bus,
        },
    )
}


// ---------------------------------------------------------------------------
// Writing `signals.csv`
// ---------------------------------------------------------------------------

/// One `signals.csv` row: the time text, the escaped name, the value text,
/// the escaped unit, mode and PID in decimal, and the bus label, separated
/// by commas.
pub open spec fn signal_row(
    ts_text: Seq<char>,
    name: Seq<char>,
    value_text: Seq<char>,
    unit: Seq<char>,
    mode: u8,
    pid: u8,
    bus: BusTag,
) -> Seq<char> {
    ts_text + seq![','] + csv_field(name) + seq![','] + value_text + seq![','] + csv_field(unit)
        + seq![','] + decimal(mode) + seq![','] + decimal(pid) + seq![','] + bus_tag_text(
        bus,
    )
}

/// Writes one `signals.csv` row (without the line end) from a sample's time
/// text, name, value text, unit, mode, PID and bus.
pub fn signal_csv_row(
    ts_text: &str,
    name: &str,
    value_text: &str,
    unit: &str,
    mode: u8,
    pid: u8,
    bus: BusTag,
) -> (r: String)
    ensures
        r@ == signal_row(ts_text@, name@, value_text@, unit@, mode, pid, bus),
{
    let mut r = owned(ts_text);
    push_char(&mut r, ',');
    let n = escape_csv(name);
    push_str(&mut r, n.as_str());
    push_char(&mut r, ',');
    push_str(&mut r, value_text);
    push_char(&mut r, ',');
    let u = escape_csv(unit);
    push_str(&mut r, u.as_str());
    push_char(&mut r, ',');
    let m = decimal_string(mode);
    push_str(&mut r, m.as_str());
    push_char(&mut r, ',');
    let p = decimal_string(pid);
    push_str(&mut r, p.as_str());
    push_char(&mut r, ',');
    push_str(&mut r, bus.as_str());
    r
}

/// No comma in the text.
pub open spec fn no_comma(s: Seq<char>) -> bool {
    forall|i: int| 0 <= i < s.len() ==> s[i] != ','
}

/// A field that `signals.csv` writes as it is: no comma and no quote.
pub open spec fn plain_field(s: Seq<char>) -> bool {
    forall|i: int| 0 <= i < s.len() ==> s[i] != ',' && s[i] != '"'
}

proof fn lemma_csv_split_single(s: Seq<char>)
    requires
        no_comma(s),
    ensures
        csv_split(s) == seq![s],
    decreases s.len(),
{
    if s.len() > 0 {
        lemma_csv_split_single(s.drop_last());
        assert(s.drop_last().push(s.last()) =~= s);
        assert(seq![s.drop_last()].update(0, s) =~= seq![s]);
    } else {
        assert(s =~= Seq::<char>::empty());
    }
}

proof fn lemma_csv_split_join(s: Seq<char>, t: Seq<char>)
    ensures
        csv_split(s + seq![','] + t) == csv_split(s) + csv_split(t),
    decreases t.len(),
{
    let u = s + seq![','] + t;
    if t.len() == 0 {
        assert(u =~= s + seq![',']);
        assert((s + seq![',']).drop_last() =~= s);
        assert(csv_split(s) + csv_split(t) =~= csv_split(s).push(Seq::empty()));
    } else {
        lemma_csv_split_join(s, t.drop_last());
        assert(u.drop_last() =~= s + seq![','] + t.drop_last());
        assert(u.last() == t.last());
        lemma_csv_split_nonempty(t.drop_last());
        lemma_csv_split_nonempty(s);
        let a = csv_split(s);
        let b = csv_split(t.drop_last());
        if t.last() == ',' {
            assert(csv_split(u) =~= a + b.push(Seq::empty()));
        } else {
            let f = a + b;
            assert(f.last() == b.last());
            assert(f.update(f.len() - 1, f.last().push(t.last())) =~= a + b.update(
                b.len() - 1,
                b.last().push(t.last()),
            ));
        }
    }
}

proof fn lemma_plain_field_unescaped(s: Seq<char>)
    requires
        plain_field(s),
    ensures
        csv_field(s) == s,
        no_comma(s),
{
    reveal_strlit(",");
    reveal_strlit("\"");
    if contains(s, ","@) {
        let i = choose|i: int| crate::text::occurs_at(s, ","@, i);
        assert(s.subrange(i, i + 1)[0] == s[i]);
    }
    if contains(s, "\""@) {
        let i = choose|i: int| crate::text::occurs_at(s, "\""@, i);
        assert(s.subrange(i, i + 1)[0] == s[i]);
    }
}

proof fn lemma_decimal_reads(n: u8)
    ensures
        decimal_u8(decimal(n)) == Some(n),
        no_comma(decimal(n)),
{
    let t = decimal(n);
    reveal_with_fuel(digits_value, 4);
    assert forall|i: int| 0 <= i < t.len() implies crate::text::is_digit(#[trigger] t[i]) && t[i]
        != ',' by {}
    if n < 10 {
        assert(t.drop_last() =~= Seq::<char>::empty());
    } else if n < 100 {
        assert(t.drop_last() =~= seq![t[0]]);
        assert(t.drop_last().drop_last() =~= Seq::<char>::empty());
    } else {
        assert(t.drop_last() =~= seq![t[0], t[1]]);
        assert(t.drop_last().drop_last() =~= seq![t[0]]);
        assert(t.drop_last().drop_last().drop_last() =~= Seq::<char>::empty());
    }
}

/// A row written from fields without commas (and, for name and unit, without
/// quotes) reads back as those fields: the time as its text reads, the rest
/// unchanged.
pub proof fn lemma_signal_row_reads_back(
    ts_text: Seq<char>,
    name: Seq<char>,
    value_text: Seq<char>,
    unit: Seq<char>,
    mode: u8,
    pid: u8,
    bus: BusTag,
)
    requires
        no_comma(ts_text),
        plain_field(name),
        no_comma(value_text),
        plain_field(unit),
    ensures
        signal_fields_spec(signal_row(ts_text, name, value_text, unit, mode, pid, bus)) == match rfc3339_time(
            ts_text,
        ) {
            Some(t) => Some(
                SignalFieldsView { ts: t, name, value_text, unit, mode, pid, bus },
            ),
            None => None,
        },
{
    reveal_strlit("hs");
    reveal_strlit("ms");
    reveal_strlit("unknown");
    lemma_plain_field_unescaped(name);
    lemma_plain_field_unescaped(unit);
    lemma_decimal_reads(mode);
    lemma_decimal_reads(pid);
    crate::bus::lemma_bus_tag_text_parses(bus);
    let bt = bus_tag_text(bus);
    assert(no_comma(bt));
    let dm = decimal(mode);
    let dp = decimal(pid);
    let c = seq![','];
    let row = signal_row(ts_text, name, value_text, unit, mode, pid, bus);
    let r5 = dp + c + bt;
    let r4 = dm + c + r5;
    let r3 = unit + c + r4;
    let r2 = value_text + c + r3;
    let r1 = name + c + r2;
    assert(row =~= ts_text + c + r1);
    lemma_csv_split_single(ts_text);
    lemma_csv_split_single(name);
    lemma_csv_split_single(value_text);
    lemma_csv_split_single(unit);
    lemma_csv_split_single(dm);
    lemma_csv_split_single(dp);
    lemma_csv_split_single(bt);
    lemma_csv_split_join(dp, bt);
    lemma_csv_split_join(dm, r5);
    lemma_csv_split_join(unit, r4);
    lemma_csv_split_join(value_text, r3);
    lemma_csv_split_join(name, r2);
    lemma_csv_split_join(ts_text, r1);
    assert(csv_split(row) =~= seq![ts_text, name, value_text, unit, dm, dp, bt]);
}

} // verus!
