//! The EPG time shift: moving the `start` and `stop` times of the
//! programmes of an XMLTV guide by a user's offset.

use vstd::prelude::*;
use std::io::Write;
use crate::text::{after_char, before_char, chars_of, find_char_from, lemma_split_at_found, push_str, string_of_range};

verus! {

/// An XMLTV date `YYYYMMDDhhmmss` as chrono's
/// `NaiveDateTime::parse_from_str` with that format reads it, given (taken
/// as UTC) as its seconds since the UNIX epoch and the nanoseconds of the
/// second (1 000 000 000 or more in a leap second); `None` where chrono
/// refuses the text.
pub uninterp spec fn xmltv_date_time(s: Seq<char>) -> Option<(i64, u32)>;

/// A date, as seconds and nanoseconds, moved by `minutes` minutes with
/// chrono's `NaiveDateTime::checked_add_signed`; `None` where chrono
/// refuses (the minutes or the result out of its range).
pub uninterp spec fn chrono_shifted(secs: i64, nanos: u32, minutes: i64) -> Option<(i64, u32)>;

/// The XMLTV date `YYYYMMDDhhmmss` chrono writes for a date given as
/// seconds and nanoseconds; `None` where chrono represents no such date.
pub uninterp spec fn xmltv_date_text(secs: i64, nanos: u32) -> Option<Seq<char>>;

/// Reads an XMLTV date by `chrono::NaiveDateTime::parse_from_str(s,
/// "%Y%m%d%H%M%S")`, converted to seconds and nanoseconds by
/// `and_utc()`, `timestamp()` and `timestamp_subsec_nanos()`.
#[verifier::external_body]
fn parse_xmltv_date(s: &str) -> (r: Option<(i64, u32)>)
    ensures
        r == xmltv_date_time(s@),
{
    match chrono::NaiveDateTime::parse_from_str(s, "%Y%m%d%H%M%S") {
        Ok(dt) => Some((dt.and_utc().timestamp(), dt.and_utc().timestamp_subsec_nanos())),
        Err(_) => None,
    }
}

/// Moves a date by `NaiveDateTime::checked_add_signed` with
/// `TimeDelta::try_minutes(minutes)`, the date converted from and to seconds
/// and nanoseconds by `DateTime::from_timestamp` and `and_utc()`.
#[verifier::external_body]
fn add_minutes(secs: i64, nanos: u32, minutes: i64) -> (r: Option<(i64, u32)>)
    ensures
        r == chrono_shifted(secs, nanos, minutes),
{
    let date = chrono::DateTime::from_timestamp(secs, nanos)?.naive_utc();
    let shifted = date.checked_add_signed(chrono::TimeDelta::try_minutes(minutes)?)?.and_utc();
    Some((shifted.timestamp(), shifted.timestamp_subsec_nanos()))
}

/// Writes an XMLTV date: `chrono::DateTime::from_timestamp(secs, nanos)`
/// (its `None` kept), formatted with `"%Y%m%d%H%M%S"` through `naive_utc()`.
#[verifier::external_body]
fn format_xmltv_date(secs: i64, nanos: u32) -> (r: Option<String>)
    ensures
        match r {
            Some(t) => xmltv_date_text(secs, nanos) == Some(t@),
            None => xmltv_date_text(secs, nanos) is None,
        },
{
    match chrono::DateTime::from_timestamp(secs, nanos) {
        Some(dt) => Some(dt.naive_utc().format("%Y%m%d%H%M%S").to_string()),
        None => None,
    }
}

/// The date and the rest of an XMLTV time `date zone`: the parts before and
/// after its one space; `None` unless it holds exactly one space.
pub open spec fn split_xmltv_time(s: Seq<char>) -> Option<(Seq<char>, Seq<char>)> {
    match after_char(s, ' ') {
        Some(rest) => if after_char(rest, ' ') is None { Some((before_char(s, ' '), rest)) } else { None },
        None => None,
    }
}

/// An XMLTV time moved by `minutes` minutes: the date part is read, moved
/// and written back by chrono, the rest after the space kept. A time that
/// is not a date and one more part, a date that does not read, and a move
/// chrono refuses leave the text as it was.
pub open spec fn spec_time_correct(s: Seq<char>, minutes: i64) -> Seq<char> {
    match split_xmltv_time(s) {
        None => s,
        Some((date, rest)) => match xmltv_date_time(date) {
            None => s,
            Some((secs, nanos)) => match chrono_shifted(secs, nanos, minutes) {
                None => s,
                Some((t, tn)) => match xmltv_date_text(t, tn) {
                    None => s,
                    Some(text) => text + seq![' '] + rest,
                },
            },
        },
    }
}

/// Moves an XMLTV time by `correction_minutes` minutes (see
/// `spec_time_correct`).
pub fn time_correct(date_time: &str, correction_minutes: i64) -> (r: String)
    ensures
        r@ == spec_time_correct(date_time@, correction_minutes),
{
    let v = chars_of(date_time);
    let n = v.len();
    let p = find_char_from(&v, ' ', 0);
    proof {
        lemma_split_at_found(v@, ' ', 0, p as int);
        assert(v@.subrange(0, n as int) =~= v@);
    }
    if p == n {
        return string_of_range(&v, 0, n);
    }
    let q = find_char_from(&v, ' ', p + 1);
    proof {
        lemma_split_at_found(v@, ' ', p + 1, q as int);
    }
    if q < n {
        return string_of_range(&v, 0, n);
    }
    let date = string_of_range(&v, 0, p);
    let rest = string_of_range(&v, p + 1, n);
    let (secs, nanos) = match parse_xmltv_date(date.as_str()) {
        Some(d) => d,
        None => return string_of_range(&v, 0, n),
    };
    let (t, tn) = match add_minutes(secs, nanos, correction_minutes) {
        Some(d) => d,
        None => return string_of_range(&v, 0, n),
    };
    match format_xmltv_date(t, tn) {
        Some(text) => {
            let mut out = text;
            push_str(&mut out, " ");
            push_str(&mut out, rest.as_str());
            proof {
                reveal_strlit(" ");
                assert(out@ =~= spec_time_correct(date_time@, correction_minutes));
            }
            out
        },
        None => string_of_range(&v, 0, n),
    }
}

/// `programme` in ASCII: the XMLTV element of a programme.
pub open spec fn programme_tag() -> Seq<u8> {
    seq![112u8, 114u8, 111u8, 103u8, 114u8, 97u8, 109u8, 109u8, 101u8]
}

/// `start` in ASCII.
pub open spec fn start_key() -> Seq<u8> {
    seq![115u8, 116u8, 97u8, 114u8, 116u8]
}

/// `stop` in ASCII.
pub open spec fn stop_key() -> Seq<u8> {
    seq![115u8, 116u8, 111u8, 112u8]
}

fn is_programme(e: &[u8]) -> (r: bool)
    ensures
        r == (e@ == programme_tag()),
{
    let r = e.len() == 9 && e[0] == 112 && e[1] == 114 && e[2] == 111 && e[3] == 103 && e[4] == 114
        && e[5] == 97 && e[6] == 109 && e[7] == 109 && e[8] == 101;
    proof {
        if r {
            assert(e@ =~= programme_tag());
        }
        if e@ == programme_tag() {
            assert(e@[0] == programme_tag()[0]);
        }
    }
    r
}

fn is_start_key(k: &[u8]) -> (r: bool)
    ensures
        r == (k@ == start_key()),
{
    let r = k.len() == 5 && k[0] == 115 && k[1] == 116 && k[2] == 97 && k[3] == 114 && k[4] == 116;
    proof {
        if r {
            assert(k@ =~= start_key());
        }
    }
    r
}

fn is_stop_key(k: &[u8]) -> (r: bool)
    ensures
        r == (k@ == stop_key()),
{
    let r = k.len() == 4 && k[0] == 115 && k[1] == 116 && k[2] == 111 && k[3] == 112;
    proof {
        if r {
            assert(k@ =~= stop_key());
        }
    }
    r
}

/// The new value of an attribute while an XMLTV guide is moved by
/// `offset_minutes`: the `start` and `stop` times of a `programme` element
/// are moved (see `spec_time_correct`); every other attribute is kept as it
/// is (`None`).
pub fn shift_programme_attribute(element: &[u8], key: &[u8], value: &str, offset_minutes: i32) -> (r: Option<String>)
    ensures
        match r {
            Some(t) => element@ == programme_tag() && (key@ == start_key() || key@ == stop_key())
                && t@ == spec_time_correct(value@, offset_minutes as i64),
            None => !(element@ == programme_tag() && (key@ == start_key() || key@ == stop_key())),
        },
{
    if is_programme(element) && (is_start_key(key) || is_stop_key(key)) {
        Some(time_correct(value, offset_minutes as i64))
    } else {
        None
    }
}

/// What the time shift needs of an XML event: a start tag's name and its
/// attributes, each as its key and its value as written (still escaped);
/// nothing of any other event.
pub enum XmlEvent {
    Start { name: Vec<u8>, attributes: Vec<(Vec<u8>, Vec<u8>)> },
    Other,
}

/// The abstract value of an XML event.
pub enum XmlEventView {
    Start { name: Seq<u8>, attributes: Seq<(Seq<u8>, Seq<u8>)> },
    Other,
}

/// The views of a list of attributes.
pub open spec fn attributes_view(a: Seq<(Vec<u8>, Vec<u8>)>) -> Seq<(Seq<u8>, Seq<u8>)> {
    a.map_values(|p: (Vec<u8>, Vec<u8>)| (p.0@, p.1@))
}

impl View for XmlEvent {
    type V = XmlEventView;

    open spec fn view(&self) -> XmlEventView {
        match self {
            XmlEvent::Start { name, attributes } => XmlEventView::Start { name: name@, attributes: attributes_view(attributes@) },
            XmlEvent::Other => XmlEventView::Other,
        }
    }
}

/// An attribute value to write: bytes written as they are, or text that is
/// escaped first.
pub enum XmlValue {
    Raw(Vec<u8>),
    Text(String),
}

/// The abstract value of an attribute value to write.
pub enum XmlValueView {
    Raw(Seq<u8>),
    Text(Seq<char>),
}

impl View for XmlValue {
    type V = XmlValueView;

    open spec fn view(&self) -> XmlValueView {
        match self {
            XmlValue::Raw(b) => XmlValueView::Raw(b@),
            XmlValue::Text(t) => XmlValueView::Text(t@),
        }
    }
}

/// The views of a list of attributes to write.
pub open spec fn values_view(a: Seq<(Vec<u8>, XmlValue)>) -> Seq<(Seq<u8>, XmlValueView)> {
    a.map_values(|p: (Vec<u8>, XmlValue)| (p.0@, p.1@))
}

/// The event that quick-xml's reader reads from the document `xml` placed at
/// byte `pos` (with end tags neither checked against nor required to match
/// an earlier start tag, so that no earlier event is needed), and the byte
/// position after it; `None` at the end of the
/// document or where the reader reports an error.
pub uninterp spec fn xml_event_at(xml: Seq<u8>, pos: int) -> Option<(XmlEventView, int)>;

/// An attribute value as written, decoded as UTF-8 and unescaped by
/// quick-xml; `None` where that fails.
pub uninterp spec fn xml_unescaped(raw: Seq<u8>) -> Option<Seq<char>>;

/// The start tag quick-xml's writer writes for a name and attributes.
pub uninterp spec fn xml_start_tag(name: Seq<u8>, attributes: Seq<(Seq<u8>, XmlValueView)>) -> Seq<u8>;

/// The gzip stream flate2 writes for `data` at the default compression.
pub uninterp spec fn gzip_bytes(data: Seq<u8>) -> Seq<u8>;

/// Reads one event with `quick_xml::Reader::read_event`, from a reader over
/// `xml[pos..]` with `check_end_names` off and `allow_unmatched_ends` on; a
/// start tag's attributes are
/// those its attribute iterator yields without error.
#[verifier::external_body]
fn read_xml_event(xml: &[u8], pos: usize) -> (r: Option<(XmlEvent, usize)>)
    requires
        pos <= xml@.len(),
    ensures
        match r {
            Some((e, next)) => xml_event_at(xml@, pos as int) == Some((e@, next as int)),
            None => xml_event_at(xml@, pos as int) is None,
        },
{
    let mut reader = quick_xml::Reader::from_reader(&xml[pos..]);
    reader.config_mut().check_end_names = false;
    reader.config_mut().allow_unmatched_ends = true;
    let event = match reader.read_event() {
        Ok(quick_xml::events::Event::Start(e)) => XmlEvent::Start {
            name: e.name().as_ref().to_vec(),
            attributes: e.attributes().filter_map(|a| a.ok()).map(|a| (a.key.as_ref().to_vec(), a.value.to_vec())).collect(),
        },
        Ok(quick_xml::events::Event::Eof) | Err(_) => return None,
        Ok(_) => XmlEvent::Other,
    };
    Some((event, pos + reader.buffer_position() as usize))
}

/// Decodes and unescapes an attribute value by quick-xml's
/// `Attribute::unescape_value`.
#[verifier::external_body]
fn unescape_xml_value(raw: &[u8]) -> (r: Option<String>)
    ensures
        match r {
            Some(v) => xml_unescaped(raw@) == Some(v@),
            None => xml_unescaped(raw@) is None,
        },
{
    match quick_xml::events::attributes::Attribute::from((&b""[..], raw)).unescape_value() {
        Ok(v) => Some(v.into_owned()),
        Err(_) => None,
    }
}

/// Writes a start tag with quick-xml: a `BytesStart` of the name, each
/// attribute pushed (a text value escaped by `quick_xml::escape::escape`),
/// written by `Writer::write_event` into a vector.
#[verifier::external_body]
fn write_start_tag(name: &[u8], attributes: &Vec<(Vec<u8>, XmlValue)>) -> (r: Vec<u8>)
    ensures
        r@ == xml_start_tag(name@, values_view(attributes@)),
{
    let mut elem = quick_xml::events::BytesStart::from(quick_xml::name::QName(name));
    for (key, value) in attributes.iter() {
        match value {
            XmlValue::Raw(raw) => elem.push_attribute((key.as_slice(), raw.as_slice())),
            XmlValue::Text(t) => elem.push_attribute((key.as_slice(), quick_xml::escape::escape(t.as_str()).as_bytes())),
        }
    }
    let mut writer = quick_xml::Writer::new(Vec::new());
    let _ = writer.write_event(quick_xml::events::Event::Start(elem));
    writer.into_inner()
}

/// Compresses with `flate2::write::GzEncoder` at the default level (writing
/// into a vector, which cannot fail).
#[verifier::external_body]
fn gzip(data: &[u8]) -> (r: Vec<u8>)
    ensures
        r@ == gzip_bytes(data@),
{
    let mut encoder = flate2::write::GzEncoder::new(Vec::new(), flate2::Compression::default());
    let _ = encoder.write_all(data);
    encoder.finish().unwrap_or_default()
}

/// The value an attribute of a `programme` start tag is written with: a
/// `start` or `stop` value that unescapes is moved (see `spec_time_correct`)
/// and written escaped; any other value is written as it was.
pub open spec fn shifted_value(key: Seq<u8>, raw: Seq<u8>, minutes: i64) -> XmlValueView {
    if key == start_key() || key == stop_key() {
        match xml_unescaped(raw) {
            Some(v) => XmlValueView::Text(spec_time_correct(v, minutes)),
            None => XmlValueView::Raw(raw),
        }
    } else {
        XmlValueView::Raw(raw)
    }
}

/// The attributes of a `programme` start tag after the shift, in order.
pub open spec fn shifted_attributes(attributes: Seq<(Seq<u8>, Seq<u8>)>, minutes: i64) -> Seq<(Seq<u8>, XmlValueView)> {
    Seq::new(attributes.len(), |i: int| (attributes[i].0, shifted_value(attributes[i].0, attributes[i].1, minutes)))
}

/// What an event at `pos..next` becomes: a `programme` start tag is written
/// anew with its shifted attributes; every other event is kept as the bytes
/// it was read from.
pub open spec fn shifted_piece(xml: Seq<u8>, pos: int, next: int, e: XmlEventView, minutes: i64) -> Seq<u8> {
    match e {
        XmlEventView::Start { name, attributes } => if name == programme_tag() {
            xml_start_tag(name, shifted_attributes(attributes, minutes))
        } else {
            xml.subrange(pos, next)
        },
        XmlEventView::Other => xml.subrange(pos, next),
    }
}

/// The guide from byte `pos` on, moved by `minutes` minutes: the pieces of
/// its events in order, up to the end of the document or the first event
/// that cannot be read (or that would not move the reader forward).
pub open spec fn shifted_document_from(xml: Seq<u8>, pos: int, minutes: i64) -> Seq<u8>
    decreases xml.len() - pos,
{
    if 0 <= pos <= xml.len() {
        match xml_event_at(xml, pos) {
            Some((e, next)) => if pos < next <= xml.len() {
                shifted_piece(xml, pos, next, e, minutes) + shifted_document_from(xml, next, minutes)
            } else {
                Seq::<u8>::empty()
            },
            None => Seq::<u8>::empty(),
        }
    } else {
        Seq::<u8>::empty()
    }
}

fn shift_attributes(attributes: &Vec<(Vec<u8>, Vec<u8>)>, minutes: i32) -> (r: Vec<(Vec<u8>, XmlValue)>)
    ensures
        values_view(r@) == shifted_attributes(attributes_view(attributes@), minutes as i64),
{
    let mut out: Vec<(Vec<u8>, XmlValue)> = Vec::new();
    let n = attributes.len();
    let ghost target = shifted_attributes(attributes_view(attributes@), minutes as i64);
    let mut i: usize = 0;
    while i < n
        invariant
            n == attributes@.len(),
            i <= n,
            target == shifted_attributes(attributes_view(attributes@), minutes as i64),
            values_view(out@) == target.take(i as int),
        decreases n - i,
    {
        let (key, raw) = &attributes[i];
        let k = vstd::slice::slice_to_vec(key.as_slice());
        let value = if is_start_key(key.as_slice()) || is_stop_key(key.as_slice()) {
            match unescape_xml_value(raw.as_slice()) {
                Some(v) => XmlValue::Text(time_correct(v.as_str(), minutes as i64)),
                None => XmlValue::Raw(vstd::slice::slice_to_vec(raw.as_slice())),
            }
        } else {
            XmlValue::Raw(vstd::slice::slice_to_vec(raw.as_slice()))
        };
        let ghost before = out@;
        out.push((k, value));
        proof {
            assert(attributes_view(attributes@)[i as int] == (key@, raw@));
            assert(values_view(out@) =~= values_view(before).push((k@, value@)));
            assert(target.take(i + 1) =~= target.take(i as int).push(target[i as int]));
        }
        i = i + 1;
    }
    proof {
        assert(target.take(n as int) =~= target);
    }
    out
}

fn shifted_piece_bytes(xml: &[u8], pos: usize, next: usize, event: &XmlEvent, minutes: i32) -> (r: Vec<u8>)
    requires
        pos < next <= xml@.len(),
    ensures
        r@ == shifted_piece(xml@, pos as int, next as int, event@, minutes as i64),
{
    match event {
        XmlEvent::Start { name, attributes } => {
            if is_programme(name.as_slice()) {
                let shifted = shift_attributes(attributes, minutes);
                write_start_tag(name.as_slice(), &shifted)
            } else {
                vstd::slice::slice_to_vec(vstd::slice::slice_subrange(xml, pos, next))
            }
        },
        XmlEvent::Other => vstd::slice::slice_to_vec(vstd::slice::slice_subrange(xml, pos, next)),
    }
}

/// An XMLTV guide with the `start` and `stop` times of its programmes
/// moved by `offset_minutes` (see `shifted_document_from`).
pub fn shift_epg_document(xml: &[u8], offset_minutes: i32) -> (r: Vec<u8>)
    ensures
        r@ == shifted_document_from(xml@, 0, offset_minutes as i64),
{
    let ghost m = offset_minutes as i64;
    let n = xml.len();
    let mut out: Vec<u8> = Vec::new();
    let mut pos: usize = 0;
    loop
        invariant
            pos <= n == xml@.len(),
            shifted_document_from(xml@, 0, m) == out@ + shifted_document_from(xml@, pos as int, m),
            m == offset_minutes as i64,
        decreases n - pos,
    {
        match read_xml_event(xml, pos) {
            None => {
                proof {
                    assert(out@ + Seq::<u8>::empty() =~= out@);
                }
                return out;
            },
            Some((event, next)) => {
                if !(pos < next && next <= n) {
                    proof {
                        assert(out@ + Seq::<u8>::empty() =~= out@);
                    }
                    return out;
                }
                let piece = shifted_piece_bytes(xml, pos, next, &event, offset_minutes);
                let ghost before = out@;
                let mut piece = piece;
                out.append(&mut piece);
                proof {
                    assert(shifted_document_from(xml@, pos as int, m)
                        == shifted_piece(xml@, pos as int, next as int, event@, m) + shifted_document_from(xml@, next as int, m));
                    assert(before + (shifted_piece(xml@, pos as int, next as int, event@, m) + shifted_document_from(xml@, next as int, m))
                        =~= out@ + shifted_document_from(xml@, next as int, m));
                }
                pos = next;
            },
        }
    }
}

/// The guide served to a user with a time shift: the XMLTV document moved
/// by `offset_minutes`, gzip-compressed.
pub fn shift_epg(xml: &[u8], offset_minutes: i32) -> (r: Vec<u8>)
    ensures
        r@ == gzip_bytes(shifted_document_from(xml@, 0, offset_minutes as i64)),
{
    let document = shift_epg_document(xml, offset_minutes);
    gzip(document.as_slice())
}

} // verus!
