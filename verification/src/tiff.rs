//! The best-effort TIFF metadata path: a TIFF image carries editorial
//! metadata as an XMP packet in tag 700.  The packet is located by a
//! verified walk of the container's first image file directory — plain
//! offset arithmetic over the buffer, with no image decoding — and a
//! small, fixed subset of fields is extracted from the packet's XML
//! event stream: the creator (by-line), and the province/state and
//! country attributes of a description element.  There is no
//! corresponding write path.

use vstd::prelude::*;

use vstd::slice::slice_to_vec;
use xml::reader::EventReader;
use xml::reader::XmlEvent as RawXmlEvent;

use crate::store::merge_value;
use crate::store::store_merge;
use crate::tags::IPTCTag;
use crate::FormatError;

verus! {

/// One event of the XML stream, reduced to the plain values the
/// extraction reads: an element start with its attributes (prefix,
/// local name, value), a text run, an element end, or anything else.
pub enum XmpEvent {
    Start { local_name: String, attributes: Vec<(Option<String>, String, String)> },
    Characters(String),
    End { local_name: String },
    Other,
}

/// The mathematical form of one XML event.
pub enum XmpEventV {
    Start { local_name: Seq<char>, attributes: Seq<(Option<Seq<char>>, Seq<char>, Seq<char>)> },
    Characters(Seq<char>),
    End { local_name: Seq<char> },
    Other,
}

impl DeepView for XmpEvent {
    type V = XmpEventV;

    open spec fn deep_view(&self) -> XmpEventV {
        match self {
            XmpEvent::Start { local_name, attributes } => XmpEventV::Start {
                local_name: local_name@,
                attributes: attributes.deep_view(),
            },
            XmpEvent::Characters(s) => XmpEventV::Characters(s@),
            XmpEvent::End { local_name } => XmpEventV::End { local_name: local_name@ },
            XmpEvent::Other => XmpEventV::Other,
        }
    }
}

/// An ASCII whitespace character; a text run made only of these is
/// ignored.
pub open spec fn is_space_char(c: char) -> bool {
    c == ' ' || c == '\t' || c == '\n' || c == '\r'
}

/// A text run holds something beyond whitespace.
pub open spec fn spec_has_content(s: Seq<char>) -> bool {
    exists|i: int| 0 <= i < s.len() && !is_space_char(s[i])
}

/// One description attribute applied to the store: the photoshop
/// State and Country attributes upsert their fields, everything else
/// is ignored.
pub open spec fn spec_apply_attr(
    st: Seq<(IPTCTag, Seq<Seq<char>>)>,
    a: (Option<Seq<char>>, Seq<char>, Seq<char>),
) -> Seq<(IPTCTag, Seq<Seq<char>>)> {
    if a.0 == Some("photoshop"@) {
        if a.1 == "State"@ {
            store_merge(st, IPTCTag::ProvinceOrState, false, a.2)
        } else if a.1 == "Country"@ {
            store_merge(st, IPTCTag::CountryOrPrimaryLocationName, false, a.2)
        } else {
            st
        }
    } else {
        st
    }
}

/// A run of description attributes applied in order.
pub open spec fn spec_fold_attrs(
    st: Seq<(IPTCTag, Seq<Seq<char>>)>,
    attrs: Seq<(Option<Seq<char>>, Seq<char>, Seq<char>)>,
) -> Seq<(IPTCTag, Seq<Seq<char>>)>
    decreases attrs.len(),
{
    if attrs.len() == 0 {
        st
    } else {
        spec_fold_attrs(spec_apply_attr(st, attrs[0]), attrs.drop_first())
    }
}

/// The extraction state: the store built so far, the tag the next
/// text run belongs to, and whether the walk stands inside a creator
/// element.
pub struct XmpStateV {
    pub store: Seq<(IPTCTag, Seq<Seq<char>>)>,
    pub current: Option<IPTCTag>,
    pub in_creator: bool,
}

/// One XML event applied to the extraction state: a creator element
/// opens the by-line scope, a list item inside it routes the next text
/// run to the by-line, a description element's attributes are applied,
/// text upserts the pending tag, and an element end closes scopes.
pub open spec fn spec_xmp_step(st: XmpStateV, ev: XmpEventV) -> XmpStateV {
    match ev {
        XmpEventV::Start { local_name, attributes } => {
            if local_name == "creator"@ {
                XmpStateV { in_creator: true, ..st }
            } else if local_name == "li"@ && st.in_creator {
                XmpStateV { current: Some(IPTCTag::ByLine), ..st }
            } else if local_name == "Description"@ {
                XmpStateV { store: spec_fold_attrs(st.store, attributes), ..st }
            } else {
                st
            }
        },
        XmpEventV::Characters(s) => {
            match st.current {
                Some(tag) => if spec_has_content(s) {
                    XmpStateV { store: store_merge(st.store, tag, false, s), ..st }
                } else {
                    st
                },
                None => st,
            }
        },
        XmpEventV::End { local_name } => XmpStateV {
            store: st.store,
            current: None,
            in_creator: if local_name == "creator"@ {
                false
            } else {
                st.in_creator
            },
        },
        XmpEventV::Other => st,
    }
}

/// The extraction state after a run of events.
pub open spec fn spec_xmp_fold(st: XmpStateV, events: Seq<XmpEventV>) -> XmpStateV
    decreases events.len(),
{
    if events.len() == 0 {
        st
    } else {
        spec_xmp_fold(spec_xmp_step(st, events[0]), events.drop_first())
    }
}

/// The empty extraction state.
pub open spec fn spec_xmp_init() -> XmpStateV {
    XmpStateV { store: Seq::empty(), current: None, in_creator: false }
}

/// What the whole TIFF read yields: the store folded from the XMP
/// packet's events, or a decode failure when the packet or its XML
/// cannot be read.
pub open spec fn spec_tiff_read(b: Seq<u8>) -> Result<
    Seq<(IPTCTag, Seq<Seq<char>>)>,
    FormatError,
> {
    match spec_tiff_xmp_payload(b) {
        None => Err(FormatError::Malformed),
        Some(p) => match spec_xml_events(p) {
            None => Err(FormatError::Malformed),
            Some(evs) => Ok(spec_xmp_fold(spec_xmp_init(), evs).store),
        },
    }
}

pub uninterp spec fn spec_xml_events(b: Seq<u8>) -> Option<Seq<XmpEventV>>;

/// The numeric value of two TIFF bytes read in the container's
/// declared byte order.
pub open spec fn tiff_u16(b: Seq<u8>, le: bool, off: int) -> int {
    if le {
        (b[off] as int) + 256 * (b[off + 1] as int)
    } else {
        256 * (b[off] as int) + (b[off + 1] as int)
    }
}

/// The numeric value of four TIFF bytes read in the container's
/// declared byte order.
pub open spec fn tiff_u32(b: Seq<u8>, le: bool, off: int) -> int {
    if le {
        tiff_u16(b, le, off) + 65536 * tiff_u16(b, le, off + 2)
    } else {
        65536 * tiff_u16(b, le, off) + tiff_u16(b, le, off + 2)
    }
}

/// A TIFF entry type whose elements are single bytes, as an XMP packet
/// is stored: BYTE, ASCII, SBYTE or UNDEFINED.
pub open spec fn is_byte_sized_type(t: int) -> bool {
    t == 1 || t == 2 || t == 6 || t == 7
}

/// The position of the first entry of the image file directory at
/// `base` holding the XMP tag, scanning entries `i` up to `n`; `None`
/// when the directory ends, or is cut off, first.
pub open spec fn spec_find_xmp_entry(b: Seq<u8>, le: bool, base: int, i: int, n: int) -> Option<
    int,
>
    decreases n - i,
{
    if i < 0 || i >= n {
        None
    } else {
        let e = base + 2 + 12 * i;
        if e + 12 > b.len() {
            None
        } else if tiff_u16(b, le, e) == 700 {
            Some(e)
        } else {
            spec_find_xmp_entry(b, le, base, i + 1, n)
        }
    }
}

/// The XMP packet of a TIFF buffer: past the byte-order signature, the
/// first image file directory is walked to tag 700; its byte payload
/// lies inline in the entry's value field when it fits the four bytes,
/// and at the declared offset otherwise.  Locating the payload takes
/// only this directory arithmetic, so the walk is part of the library;
/// image structure beyond it is never touched.
pub open spec fn spec_tiff_xmp_payload(b: Seq<u8>) -> Option<Seq<u8>> {
    if b.len() < 8 {
        None
    } else {
        let le = b[0] == 0x49 && b[1] == 0x49 && b[2] == 0x2a && b[3] == 0x00;
        let be = b[0] == 0x4d && b[1] == 0x4d && b[2] == 0x00 && b[3] == 0x2a;
        if !le && !be {
            None
        } else {
            let ifd = tiff_u32(b, le, 4);
            if ifd + 2 > b.len() {
                None
            } else {
                let n = tiff_u16(b, le, ifd);
                match spec_find_xmp_entry(b, le, ifd, 0, n) {
                    None => None,
                    Some(e) => {
                        let t = tiff_u16(b, le, e + 2);
                        let count = tiff_u32(b, le, e + 4);
                        if !is_byte_sized_type(t) {
                            None
                        } else if count <= 4 {
                            Some(b.subrange(e + 8, e + 8 + count))
                        } else {
                            let voff = tiff_u32(b, le, e + 8);
                            if voff + count <= b.len() {
                                Some(b.subrange(voff, voff + count))
                            } else {
                                None
                            }
                        }
                    },
                }
            }
        }
    }
}

/// Two bytes read in the container's declared byte order.
fn read_u16_order(buffer: &[u8], le: bool, off: usize) -> (r: u16)
    requires
        off + 1 < buffer@.len(),
    ensures
        r == tiff_u16(buffer@, le, off as int),
{
    if le {
        (buffer[off] as u16) + 256 * (buffer[off + 1] as u16)
    } else {
        256 * (buffer[off] as u16) + (buffer[off + 1] as u16)
    }
}

/// Four bytes read in the container's declared byte order.
fn read_u32_order(buffer: &[u8], le: bool, off: usize) -> (r: u32)
    requires
        off + 3 < buffer@.len(),
    ensures
        r == tiff_u32(buffer@, le, off as int),
{
    let blen = buffer.len();
    let lo = read_u16_order(buffer, le, off) as u32;
    let hi = read_u16_order(buffer, le, off + 2) as u32;
    if le {
        lo + 65536 * hi
    } else {
        65536 * lo + hi
    }
}

/// Walks the directory entries at `base` for the XMP tag.
fn find_xmp_entry(buffer: &[u8], le: bool, base: usize, n: usize) -> (r: Option<usize>)
    requires
        base + 2 <= buffer@.len(),
        n <= 65535,
    ensures
        (match r {
            Some(e) => spec_find_xmp_entry(buffer@, le, base as int, 0, n as int) == Some(e as int)
                && base + 2 <= e && e + 12 <= buffer@.len(),
            None => spec_find_xmp_entry(buffer@, le, base as int, 0, n as int) is None,
        }),
{
    let ghost b = buffer@;
    let blen = buffer.len();
    let lim = blen - (base + 2);
    let mut i: usize = 0;
    loop
        invariant
            b == buffer@,
            base + 2 <= b.len(),
            blen == b.len(),
            lim == b.len() - (base + 2),
            0 <= i <= n,
            n <= 65535,
            spec_find_xmp_entry(b, le, base as int, 0, n as int) == spec_find_xmp_entry(
                b,
                le,
                base as int,
                i as int,
                n as int,
            ),
        decreases n - i,
    {
        if i >= n {
            return None;
        }
        if 12 * i + 12 > lim {
            return None;
        }
        let e = base + 2 + 12 * i;
        if read_u16_order(buffer, le, e) == 700 {
            return Some(e);
        }
        i += 1;
    }
}

/// The XMP packet located in a TIFF buffer's first image file
/// directory, exactly as `spec_tiff_xmp_payload` describes it.
pub fn read_xmp_tag(buffer: &Vec<u8>) -> (r: Option<Vec<u8>>)
    ensures
        r.deep_view() == spec_tiff_xmp_payload(buffer@),
{
    let ghost b = buffer@;
    let buf = buffer.as_slice();
    if buf.len() < 8 {
        return None;
    }
    let le = buf[0] == 0x49 && buf[1] == 0x49 && buf[2] == 0x2a && buf[3] == 0x00;
    let be = buf[0] == 0x4d && buf[1] == 0x4d && buf[2] == 0x00 && buf[3] == 0x2a;
    if !le && !be {
        return None;
    }
    let ifd = read_u32_order(buf, le, 4) as usize;
    if ifd > buf.len() || buf.len() - ifd < 2 {
        return None;
    }
    let n = read_u16_order(buf, le, ifd) as usize;
    let e = match find_xmp_entry(buf, le, ifd, n) {
        Some(e) => e,
        None => {
            return None;
        },
    };
    assert(e + 12 <= b.len());
    let t = read_u16_order(buf, le, e + 2);
    if !(t == 1 || t == 2 || t == 6 || t == 7) {
        return None;
    }
    let count = read_u32_order(buf, le, e + 4) as usize;
    if count <= 4 {
        let v = slice_to_vec(&buf[e + 8..e + 8 + count]);
        proof {
            assert(v.deep_view() =~= v@);
        }
        return Some(v);
    }
    let voff = read_u32_order(buf, le, e + 8) as usize;
    if voff > buf.len() || count > buf.len() - voff {
        return None;
    }
    let v = slice_to_vec(&buf[voff..voff + count]);
    proof {
        assert(v.deep_view() =~= v@);
    }
    Some(v)
}

/// Relies on `xml::reader::EventReader`: the event stream parsed from
/// the bytes — a pure function of them, named `spec_xml_events`;
/// `None` when the document is malformed.
#[verifier::external_body]
fn parse_xml_events(data: &Vec<u8>) -> (r: Option<Vec<XmpEvent>>)
    ensures
        r.deep_view() == spec_xml_events(data@),
{
    let mut events: Vec<XmpEvent> = Vec::new();
    for ev in EventReader::new(std::io::Cursor::new(data.as_slice())) {
        events.push(match ev {
            Err(_) => return None,
            Ok(RawXmlEvent::StartElement { name, attributes, .. }) => XmpEvent::Start {
                local_name: name.local_name,
                attributes: attributes.into_iter().map(|a| (a.name.prefix, a.name.local_name, a.value)).collect(),
            },
            Ok(RawXmlEvent::Characters(s)) => XmpEvent::Characters(s),
            Ok(RawXmlEvent::EndElement { name }) => XmpEvent::End { local_name: name.local_name },
            Ok(_) => XmpEvent::Other,
        });
    }
    Some(events)
}

/// A text run holds something beyond ASCII whitespace.
fn has_content(s: &str) -> (r: bool)
    ensures
        r == spec_has_content(s@),
{
    let n = s.unicode_len();
    let mut i: usize = 0;
    while i < n
        invariant
            n == s@.len(),
            0 <= i <= n,
            forall|k: int| 0 <= k < i ==> is_space_char(s@[k]),
        decreases n - i,
    {
        let c = s.get_char(i);
        if !(c == ' ' || c == '\t' || c == '\n' || c == '\r') {
            assert(!is_space_char(s@[i as int]));
            return true;
        }
        i += 1;
    }
    false
}

/// Applies the photoshop attributes of a description element.
fn apply_attrs(
    data: &mut Vec<(IPTCTag, Vec<String>)>,
    attrs: &Vec<(Option<String>, String, String)>,
)
    ensures
        final(data).deep_view() == spec_fold_attrs(old(data).deep_view(), attrs.deep_view()),
{
    let ghost av = attrs.deep_view();
    let ghost st0 = data.deep_view();
    assert(av.skip(0) =~= av);
    let mut i: usize = 0;
    while i < attrs.len()
        invariant
            av == attrs.deep_view(),
            0 <= i <= attrs.len(),
            spec_fold_attrs(st0, av) == spec_fold_attrs(data.deep_view(), av.skip(i as int)),
        decreases attrs.len() - i,
    {
        proof {
            assert(av.skip(i as int)[0] == av[i as int]);
            assert(av.skip(i as int).drop_first() =~= av.skip(i as int + 1));
        }
        let ghost pre = data.deep_view();
        let a = &attrs[i];
        proof {
            assert(av[i as int] == (a.0.deep_view(), a.1@, a.2@));
        }
        let is_photoshop = match &a.0 {
            Some(p) => crate::store::str_eq(p.as_str(), "photoshop"),
            None => false,
        };
        proof {
            assert(is_photoshop == (a.0.deep_view() == Some("photoshop"@)));
        }
        if is_photoshop {
            if crate::store::str_eq(a.1.as_str(), "State") {
                merge_value(data, IPTCTag::ProvinceOrState, false, a.2.clone());
            } else if crate::store::str_eq(a.1.as_str(), "Country") {
                merge_value(data, IPTCTag::CountryOrPrimaryLocationName, false, a.2.clone());
            }
        }
        proof {
            assert(data.deep_view() == spec_apply_attr(pre, av[i as int]));
        }
        i += 1;
    }
    proof {
        assert(av.skip(attrs.len() as int) =~= Seq::<
            (Option<Seq<char>>, Seq<char>, Seq<char>),
        >::empty());
    }
}

/// Extracts the supported fields out of a parsed XML event stream,
/// folding each event into the extraction state in order.
pub fn read_xmp_data(events: &Vec<XmpEvent>) -> (r: Vec<(IPTCTag, Vec<String>)>)
    ensures
        r.deep_view() == spec_xmp_fold(spec_xmp_init(), events.deep_view()).store,
{
    let ghost ev = events.deep_view();
    let mut data: Vec<(IPTCTag, Vec<String>)> = Vec::new();
    let mut current: Option<IPTCTag> = None;
    let mut in_creator: bool = false;
    assert(data.deep_view() =~= Seq::<(IPTCTag, Seq<Seq<char>>)>::empty());
    assert(ev.skip(0) =~= ev);
    let mut i: usize = 0;
    while i < events.len()
        invariant
            ev == events.deep_view(),
            0 <= i <= events.len(),
            spec_xmp_fold(spec_xmp_init(), ev) == spec_xmp_fold(
                XmpStateV { store: data.deep_view(), current, in_creator },
                ev.skip(i as int),
            ),
        decreases events.len() - i,
    {
        proof {
            assert(ev.skip(i as int)[0] == ev[i as int]);
            assert(ev.skip(i as int).drop_first() =~= ev.skip(i as int + 1));
        }
        let ghost pre = XmpStateV { store: data.deep_view(), current, in_creator };
        match &events[i] {
            XmpEvent::Start { local_name, attributes } => {
                proof {
                    assert(ev[i as int] == XmpEventV::Start {
                        local_name: local_name@,
                        attributes: attributes.deep_view(),
                    });
                }
                if crate::store::str_eq(local_name.as_str(), "creator") {
                    in_creator = true;
                } else if crate::store::str_eq(local_name.as_str(), "li") && in_creator {
                    current = Some(IPTCTag::ByLine);
                } else if crate::store::str_eq(local_name.as_str(), "Description") {
                    apply_attrs(&mut data, attributes);
                }
            },
            XmpEvent::Characters(s) => {
                proof {
                    assert(ev[i as int] == XmpEventV::Characters(s@));
                }
                match current {
                    Some(tag) => {
                        if has_content(s.as_str()) {
                            merge_value(&mut data, tag, false, s.clone());
                        }
                    },
                    None => {},
                }
            },
            XmpEvent::End { local_name } => {
                proof {
                    assert(ev[i as int] == XmpEventV::End { local_name: local_name@ });
                }
                if crate::store::str_eq(local_name.as_str(), "creator") {
                    in_creator = false;
                }
                current = None;
            },
            XmpEvent::Other => {
                proof {
                    assert(ev[i as int] == XmpEventV::Other);
                }
            },
        }
        proof {
            assert(XmpStateV { store: data.deep_view(), current, in_creator } == spec_xmp_step(
                pre,
                ev[i as int],
            ));
        }
        i += 1;
    }
    proof {
        assert(ev.skip(events.len() as int) =~= Seq::<XmpEventV>::empty());
    }
    data
}

/// The best-effort TIFF reader.
pub struct TIFFReader;

impl TIFFReader {
    /// Decodes the supported subset of metadata out of a TIFF buffer
    /// through its embedded XMP packet.
    pub fn read_iptc(buffer: &Vec<u8>) -> (r: Result<Vec<(IPTCTag, Vec<String>)>, FormatError>)
        ensures
            (match r {
                Ok(v) => spec_tiff_read(buffer@) == Ok::<_, FormatError>(v.deep_view()),
                Err(e) => spec_tiff_read(buffer@) == Err::<Seq<(IPTCTag, Seq<Seq<char>>)>, _>(e),
            }),
    {
        let payload = match read_xmp_tag(buffer) {
            Some(p) => p,
            None => {
                return Err(FormatError::Malformed);
            },
        };
        proof {
            assert(payload.deep_view() =~= payload@);
            assert(spec_tiff_xmp_payload(buffer@) == Some(payload@));
        }
        let events = match parse_xml_events(&payload) {
            Some(e) => e,
            None => {
                return Err(FormatError::Malformed);
            },
        };
        proof {
            assert(spec_xml_events(payload@) == Some(events.deep_view()));
        }
        Ok(read_xmp_data(&events))
    }
}

} // verus!
