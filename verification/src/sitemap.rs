//! Reading recipe URLs out of a sitemap, with the `quick-xml` reader.

use vstd::prelude::*;
use quick_xml::events::{BytesEnd, BytesStart, BytesText};
use quick_xml::Reader;
use crate::text::{chars_of, contains, contains_exec, strs};

verus! {

#[verifier::external_type_specification]
#[verifier::external_body]
#[verifier::reject_recursive_types(R)]
pub struct ExReader<R>(quick_xml::Reader<R>);

#[verifier::external_type_specification]
#[verifier::external_body]
pub struct ExBytesStart<'a>(quick_xml::events::BytesStart<'a>);

#[verifier::external_type_specification]
#[verifier::external_body]
pub struct ExBytesEnd<'a>(quick_xml::events::BytesEnd<'a>);

#[verifier::external_type_specification]
#[verifier::external_body]
pub struct ExBytesText<'a>(quick_xml::events::BytesText<'a>);

#[verifier::external_type_specification]
#[verifier::external_body]
pub struct ExXmlError(quick_xml::Error);

/// Which kind of event a reader yields.
pub enum EventKind {
    Start,
    End,
    Text,
    Eof,
    /// The reader reported an error.
    Failed,
    /// Any other event.
    Other,
}

/// Kind of the event that the `k`-th call of `Reader::read_event` yields on
/// a reader created by `Reader::from_str(xml)`, with `trim_text(trim)` set
/// before the first read.
pub uninterp spec fn xml_event_kind(xml: Seq<char>, trim: bool, k: nat) -> EventKind;

/// The element name (`BytesStart::name`) of that event when it is a start tag.
pub uninterp spec fn xml_start_name(xml: Seq<char>, trim: bool, k: nat) -> Seq<u8>;

/// The element name (`BytesEnd::name`) of that event when it is an end tag.
pub uninterp spec fn xml_end_name(xml: Seq<char>, trim: bool, k: nat) -> Seq<u8>;

/// What `BytesText::unescape` gives for that event when it is a text event;
/// `None` when decoding or unescaping fails.
pub uninterp spec fn xml_text_unescaped(xml: Seq<char>, trim: bool, k: nat) -> Option<Seq<char>>;

/// A quick-xml reader over a sitemap, with the text it reads, whether text
/// is trimmed, and how many events it has yielded.
pub struct SitemapReader<'a> {
    reader: Reader<&'a [u8]>,
    xml: Ghost<Seq<char>>,
    trim: Ghost<bool>,
    position: Ghost<nat>,
}

impl<'a> SitemapReader<'a> {
    pub closed spec fn source(&self) -> Seq<char> {
        self.xml@
    }

    pub closed spec fn trims(&self) -> bool {
        self.trim@
    }

    /// Number of events read so far.
    pub closed spec fn position(&self) -> nat {
        self.position@
    }
}

/// A start tag, with the event it came from.
pub struct XmlStart<'a> {
    raw: BytesStart<'a>,
    at: Ghost<(Seq<char>, bool, nat)>,
}

/// An end tag, with the event it came from.
pub struct XmlEnd<'a> {
    raw: BytesEnd<'a>,
    at: Ghost<(Seq<char>, bool, nat)>,
}

/// A text event, with the event it came from.
pub struct XmlText<'a> {
    raw: BytesText<'a>,
    at: Ghost<(Seq<char>, bool, nat)>,
}

impl<'a> XmlStart<'a> {
    pub closed spec fn at(&self) -> (Seq<char>, bool, nat) {
        self.at@
    }
}

impl<'a> XmlEnd<'a> {
    pub closed spec fn at(&self) -> (Seq<char>, bool, nat) {
        self.at@
    }
}

impl<'a> XmlText<'a> {
    pub closed spec fn at(&self) -> (Seq<char>, bool, nat) {
        self.at@
    }
}

/// The events of a sitemap that the URL scan tells apart.
pub enum SitemapEvent<'a> {
    Start(XmlStart<'a>),
    End(XmlEnd<'a>),
    Text(XmlText<'a>),
    Eof,
    Failed,
    Other,
}

/// The kind of an event as the reader yielded it.
pub open spec fn event_kind(e: SitemapEvent) -> EventKind {
    match e {
        SitemapEvent::Start(_) => EventKind::Start,
        SitemapEvent::End(_) => EventKind::End,
        SitemapEvent::Text(_) => EventKind::Text,
        SitemapEvent::Eof => EventKind::Eof,
        SitemapEvent::Failed => EventKind::Failed,
        SitemapEvent::Other => EventKind::Other,
    }
}

/// Creates a reader over `xml` (`Reader::from_str`).
///
/// Trusted: the reader reads `xml`, does not trim text yet, and has yielded
/// no event.
#[verifier::external_body]
fn sitemap_reader<'a>(xml: &'a str) -> (r: SitemapReader<'a>)
    ensures
        r.source() == xml@,
        !r.trims(),
        r.position() == 0,
{
    SitemapReader { reader: Reader::from_str(xml), xml: Ghost(xml@), trim: Ghost(false), position: Ghost(0) }
}

/// Makes the reader trim white space around text (`Config::trim_text(true)`).
///
/// Trusted: from now on the reader trims text; it has still read nothing.
#[verifier::external_body]
fn trim_text<'a>(r: &mut SitemapReader<'a>)
    requires
        old(r).position() == 0,
    ensures
        final(r).source() == old(r).source(),
        final(r).trims(),
        final(r).position() == 0,
{
    r.reader.config_mut().trim_text(true);
    r.trim = Ghost(true);
}

/// Reads the next event (`Reader::read_event`), telling the start, end and
/// text events, the end of input and errors apart.
///
/// Trusted: the event is the named event at the reader's position, and the
/// position advances by one.
#[verifier::external_body]
fn next_event<'a>(r: &mut SitemapReader<'a>) -> (e: SitemapEvent<'a>)
    ensures
        final(r).source() == old(r).source(),
        final(r).trims() == old(r).trims(),
        final(r).position() == old(r).position() + 1,
        event_kind(e) == xml_event_kind(old(r).source(), old(r).trims(), old(r).position()),
        match e {
            SitemapEvent::Start(t) => t.at() == (old(r).source(), old(r).trims(), old(r).position()),
            SitemapEvent::End(t) => t.at() == (old(r).source(), old(r).trims(), old(r).position()),
            SitemapEvent::Text(t) => t.at() == (old(r).source(), old(r).trims(), old(r).position()),
            _ => true,
        },
{
    let at = Ghost((r.xml@, r.trim@, r.position@));
    r.position = Ghost(r.position@ + 1);
    match r.reader.read_event() {
        Ok(quick_xml::events::Event::Start(e)) => SitemapEvent::Start(XmlStart { raw: e, at }),
        Ok(quick_xml::events::Event::End(e)) => SitemapEvent::End(XmlEnd { raw: e, at }),
        Ok(quick_xml::events::Event::Text(e)) => SitemapEvent::Text(XmlText { raw: e, at }),
        Ok(quick_xml::events::Event::Eof) => SitemapEvent::Eof,
        Ok(_) => SitemapEvent::Other,
        Err(_) => SitemapEvent::Failed,
    }
}

/// The element name of a start tag (`BytesStart::name`).
///
/// Trusted: the bytes are the named name of the tag's event.
#[verifier::external_body]
fn start_name(t: &XmlStart) -> (name: Vec<u8>)
    ensures
        name@ == xml_start_name(t.at().0, t.at().1, t.at().2),
{
    t.raw.name().as_ref().to_vec()
}

/// The element name of an end tag (`BytesEnd::name`).
///
/// Trusted: the bytes are the named name of the tag's event.
#[verifier::external_body]
fn end_name(t: &XmlEnd) -> (name: Vec<u8>)
    ensures
        name@ == xml_end_name(t.at().0, t.at().1, t.at().2),
{
    t.raw.name().as_ref().to_vec()
}

/// The decoded and unescaped text of a text event (`BytesText::unescape`).
///
/// Trusted: the result is the named unescape result of the text's event.
#[verifier::external_body]
fn unescape_text(t: &XmlText) -> (res: Result<String, quick_xml::Error>)
    ensures
        match xml_text_unescaped(t.at().0, t.at().1, t.at().2) {
            Some(s) => res matches Ok(u) && u@ == s,
            None => res is Err,
        },
{
    t.raw.unescape().map(|s| s.into_owned())
}

/// Why a sitemap could not be read.
pub enum SitemapError {
    /// The text of a `<loc>` element could not be decoded or unescaped.
    InvalidText,
}

/// Whether an element name is `loc`.
pub fn is_loc_tag(name: &Vec<u8>) -> (b: bool)
    ensures
        b == (name@ == seq![108u8, 111u8, 99u8]),
{
    if name.len() == 3 && name[0] == 108u8 && name[1] == 111u8 && name[2] == 99u8 {
        proof {
            assert(name@ =~= seq![108u8, 111u8, 99u8]);
        }
        true
    } else {
        false
    }
}

/// State of the scan for recipe URLs.
pub struct SitemapScan {
    /// Inside a `<loc>` element.
    pub in_loc: bool,
    /// The recipe URLs found so far.
    pub urls: Vec<String>,
}

impl SitemapScan {
    pub fn new() -> (s: Self)
        ensures
            !s.in_loc,
            s.urls@.len() == 0,
    {
        SitemapScan { in_loc: false, urls: Vec::new() }
    }

    /// A start tag: a `loc` tag opens a location.
    pub fn start(&mut self, name: &Vec<u8>)
        ensures
            final(self).in_loc == (old(self).in_loc || name@ == seq![108u8, 111u8, 99u8]),
            final(self).urls@ == old(self).urls@,
    {
        if is_loc_tag(name) {
            self.in_loc = true;
        }
    }

    /// An end tag: a `loc` tag closes the location.
    pub fn end(&mut self, name: &Vec<u8>)
        ensures
            final(self).in_loc == (old(self).in_loc && name@ != seq![108u8, 111u8, 99u8]),
            final(self).urls@ == old(self).urls@,
    {
        if is_loc_tag(name) {
            self.in_loc = false;
        }
    }

    /// The text of a location: kept when it is a recipe URL, i.e. contains
    /// `"/recipes/"`.
    pub fn location(&mut self, url: String)
        ensures
            final(self).in_loc == old(self).in_loc,
            final(self).urls@ == if contains(url@, "/recipes/"@) {
                old(self).urls@.push(url)
            } else {
                old(self).urls@
            },
    {
        if contains_exec(chars_of(url.as_str()).as_slice(), chars_of("/recipes/").as_slice()) {
            self.urls.push(url);
        }
    }
}

/// The `loc` element name.
pub open spec fn loc_name() -> Seq<u8> {
    seq![108u8, 111u8, 99u8]
}

/// The recipe URLs read from the events of `xml` (text trimmed), starting at
/// event `k` inside a location or not, after `found`: the scan stops at the
/// end of input or the first error, and after `fuel` further events. A
/// location text that cannot be unescaped fails the read.
pub open spec fn sitemap_scan(xml: Seq<char>, k: nat, fuel: nat, in_loc: bool, found: Seq<Seq<char>>) -> Option<
    Seq<Seq<char>>,
>
    decreases fuel,
{
    let kind = xml_event_kind(xml, true, k);
    if kind is Eof || kind is Failed {
        Some(found)
    } else {
        let next_in_loc = match kind {
            EventKind::Start => in_loc || xml_start_name(xml, true, k) == loc_name(),
            EventKind::End => in_loc && xml_end_name(xml, true, k) != loc_name(),
            _ => in_loc,
        };
        let step: Option<Seq<Seq<char>>> = if kind is Text && in_loc {
            match xml_text_unescaped(xml, true, k) {
                Some(t) => Some(
                    if contains(t, "/recipes/"@) {
                        found.push(t)
                    } else {
                        found
                    },
                ),
                None => None,
            }
        } else {
            Some(found)
        };
        match step {
            None => None,
            Some(f) => if fuel == 0 {
                Some(f)
            } else {
                sitemap_scan(xml, k + 1, (fuel - 1) as nat, next_in_loc, f)
            },
        }
    }
}

/// The recipe URLs of a sitemap: the texts of its `<loc>` elements that
/// contain `"/recipes/"`, in document order, up to the end of input or the
/// first XML error (at most one event more than the text has bytes);
/// `None` when a `<loc>` text among them cannot be unescaped.
pub open spec fn sitemap_recipe_urls(xml: Seq<char>, byte_len: nat) -> Option<Seq<Seq<char>>> {
    sitemap_scan(xml, 0, byte_len, false, Seq::empty())
}

/// Collects the texts of the `<loc>` elements of a sitemap that contain
/// `"/recipes/"`, in document order: see [`sitemap_recipe_urls`].
///
/// Reading stops at the end of the input or at the first XML error, keeping
/// what was found; a `<loc>` text that cannot be unescaped fails the whole
/// read. At most one event more than the input has bytes is read: every
/// event before the end consumes at least one byte.
pub fn parse_sitemap_urls(xml: &str) -> (res: Result<Vec<String>, SitemapError>)
    ensures
        match sitemap_recipe_urls(xml@, xml.len() as nat) {
            Some(urls) => res matches Ok(v) && strs(v@) == urls,
            None => res is Err,
        },
{
    let mut reader = sitemap_reader(xml);
    trim_text(&mut reader);
    let mut scan = SitemapScan::new();
    let mut remaining: usize = xml.len();
    proof {
        assert(strs(scan.urls@) =~= Seq::<Seq<char>>::empty());
    }
    loop
        invariant_except_break
            sitemap_recipe_urls(xml@, xml.len() as nat) == sitemap_scan(
                xml@,
                reader.position(),
                remaining as nat,
                scan.in_loc,
                strs(scan.urls@),
            ),
        invariant
            reader.source() == xml@,
            reader.trims(),
        ensures
            sitemap_recipe_urls(xml@, xml.len() as nat) == Some(strs(scan.urls@)),
        decreases remaining,
    {
        let ghost k = reader.position();
        let ghost before = strs(scan.urls@);
        let ghost was_in_loc = scan.in_loc;
        match next_event(&mut reader) {
            SitemapEvent::Start(e) => scan.start(&start_name(&e)),
            SitemapEvent::End(e) => scan.end(&end_name(&e)),
            SitemapEvent::Text(e) => {
                if scan.in_loc {
                    match unescape_text(&e) {
                        Ok(url) => {
                            let ghost u = url@;
                            scan.location(url);
                            proof {
                                if contains(u, "/recipes/"@) {
                                    assert(strs(scan.urls@) =~= before.push(u));
                                } else {
                                    assert(strs(scan.urls@) =~= before);
                                }
                            }
                        },
                        Err(_) => return Err(SitemapError::InvalidText),
                    }
                }
            },
            SitemapEvent::Eof => break,
            SitemapEvent::Failed => break,
            SitemapEvent::Other => {},
        }
        if remaining == 0 {
            break;
        }
        remaining = remaining - 1;
    }
    Ok(scan.urls)
}

/// Every URL read from a sitemap is a recipe URL.
pub proof fn lemma_sitemap_urls_are_recipe_urls(
    xml: Seq<char>,
    k: nat,
    fuel: nat,
    in_loc: bool,
    found: Seq<Seq<char>>,
)
    requires
        forall|i: int| 0 <= i < found.len() ==> contains(#[trigger] found[i], "/recipes/"@),
    ensures
        sitemap_scan(xml, k, fuel, in_loc, found) matches Some(urls) ==> forall|i: int|
            0 <= i < urls.len() ==> contains(#[trigger] urls[i], "/recipes/"@),
    decreases fuel,
{
    let kind = xml_event_kind(xml, true, k);
    if !(kind is Eof || kind is Failed) && fuel > 0 {
        let next_in_loc = match kind {
            EventKind::Start => in_loc || xml_start_name(xml, true, k) == loc_name(),
            EventKind::End => in_loc && xml_end_name(xml, true, k) != loc_name(),
            _ => in_loc,
        };
        if kind is Text && in_loc {
            if let Some(t) = xml_text_unescaped(xml, true, k) {
                let f = if contains(t, "/recipes/"@) {
                    found.push(t)
                } else {
                    found
                };
                assert forall|i: int| 0 <= i < f.len() implies contains(#[trigger] f[i], "/recipes/"@) by {
                    if i < found.len() {
                        assert(f[i] == found[i]);
                    }
                }
                lemma_sitemap_urls_are_recipe_urls(xml, k + 1, (fuel - 1) as nat, next_in_loc, f);
            }
        } else {
            lemma_sitemap_urls_are_recipe_urls(xml, k + 1, (fuel - 1) as nat, next_in_loc, found);
        }
    } else if !(kind is Eof || kind is Failed) && kind is Text && in_loc {
        if let Some(t) = xml_text_unescaped(xml, true, k) {
            let f = if contains(t, "/recipes/"@) {
                found.push(t)
            } else {
                found
            };
            assert forall|i: int| 0 <= i < f.len() implies contains(#[trigger] f[i], "/recipes/"@) by {
                if i < found.len() {
                    assert(f[i] == found[i]);
                }
            }
        }
    }
}

/// Reading a sitemap fails only at a location text that cannot be
/// unescaped, read before the end of input or the first XML error: an XML
/// error itself ends the read with the URLs found before it.
pub proof fn lemma_sitemap_fails_only_on_unescape(
    xml: Seq<char>,
    k: nat,
    fuel: nat,
    in_loc: bool,
    found: Seq<Seq<char>>,
)
    ensures
        sitemap_scan(xml, k, fuel, in_loc, found) is None ==> exists|j: nat|
            k <= j <= k + fuel && xml_event_kind(xml, true, j) is Text && (#[trigger] xml_text_unescaped(xml, true, j)) is None,
        xml_event_kind(xml, true, k) is Failed ==> sitemap_scan(xml, k, fuel, in_loc, found) == Some(found),
    decreases fuel,
{
    let kind = xml_event_kind(xml, true, k);
    if !(kind is Eof || kind is Failed) && fuel > 0 {
        let next_in_loc = match kind {
            EventKind::Start => in_loc || xml_start_name(xml, true, k) == loc_name(),
            EventKind::End => in_loc && xml_end_name(xml, true, k) != loc_name(),
            _ => in_loc,
        };
        if kind is Text && in_loc {
            if let Some(t) = xml_text_unescaped(xml, true, k) {
                let f = if contains(t, "/recipes/"@) {
                    found.push(t)
                } else {
                    found
                };
                lemma_sitemap_fails_only_on_unescape(xml, k + 1, (fuel - 1) as nat, next_in_loc, f);
            }
        } else {
            lemma_sitemap_fails_only_on_unescape(xml, k + 1, (fuel - 1) as nat, next_in_loc, found);
        }
    }
}

} // verus!
