//! Reading a dataset's metadata out of its VOTable (an XML document).

use vstd::prelude::*;

use crate::dataset::{
    after_characters, after_field_attribute, after_field_attributes, after_start_element,
    column_named, fresh_dataset, text_equals, Column, DatasetView, SubaruDataset,
};
use crate::text::{decimal_string, lemma_column_id_round_trip, trimmed};

verus! {

/// An attribute of an XML element: its local name and its value.
pub struct XmlAttribute {
    pub name: String,
    pub value: String,
}

/// One event of an XML reader, as far as the VOTable reading looks at it.
pub enum XmlItem {
    /// The start of an element: its local name and attributes.
    StartElement { name: String, attributes: Vec<XmlAttribute> },
    /// Character data.
    Characters(String),
    /// A malformed document: the reader stops here.
    Error,
    /// Any other event.
    Other,
}

/// The mathematical value of an `XmlItem`.
pub enum XmlItemView {
    StartElement { name: Seq<char>, attributes: Seq<(Seq<char>, Seq<char>)> },
    Characters(Seq<char>),
    Error,
    Other,
}

/// The `(name, value)` pairs of a list of attributes.
pub open spec fn attribute_pairs(attrs: Seq<XmlAttribute>) -> Seq<(Seq<char>, Seq<char>)> {
    attrs.map_values(|a: XmlAttribute| (a.name@, a.value@))
}

impl View for XmlItem {
    type V = XmlItemView;

    open spec fn view(&self) -> XmlItemView {
        match self {
            XmlItem::StartElement { name, attributes } => XmlItemView::StartElement {
                name: name@,
                attributes: attribute_pairs(attributes@),
            },
            XmlItem::Characters(text) => XmlItemView::Characters(text@),
            XmlItem::Error => XmlItemView::Error,
            XmlItem::Other => XmlItemView::Other,
        }
    }
}

/// The views of a list of events.
pub open spec fn item_views(items: Seq<XmlItem>) -> Seq<XmlItemView> {
    items.map_values(|e: XmlItem| e@)
}

/// The events that the XML reader of the `xml` crate yields on `bytes`,
/// with default configuration, converted one for one.
pub uninterp spec fn xml_events(bytes: Seq<u8>) -> Seq<XmlItemView>;

/// Parses `bytes` with `xml::reader::EventReader` (default configuration)
/// and converts each event it yields: the start of an element to its local
/// name and the local names and values of its attributes, character data to
/// its text, an error to `Error` (the reader yields nothing after one), any
/// other event to `Other`. The result is named `xml_events(bytes)`, which is
/// not stated further.
#[verifier::external_body]
fn read_xml_events(bytes: &[u8]) -> (events: Vec<XmlItem>)
    ensures
        item_views(events@) == xml_events(bytes@),
{
    let mut events = Vec::new();
    for event in xml::reader::EventReader::new(bytes) {
        events.push(match event {
            Ok(xml::reader::XmlEvent::StartElement { name, attributes, .. }) => XmlItem::StartElement {
                name: name.local_name,
                attributes: attributes.into_iter().map(|a| XmlAttribute { name: a.name.local_name, value: a.value }).collect(),
            },
            Ok(xml::reader::XmlEvent::Characters(text)) => XmlItem::Characters(text),
            Ok(_) => XmlItem::Other,
            Err(_) => XmlItem::Error,
        });
    }
    events
}

/// The dataset after one event of its VOTable.
pub open spec fn after_event(d: DatasetView, e: XmlItemView) -> DatasetView {
    match e {
        XmlItemView::StartElement { name, attributes } => after_start_element(d, name, attributes),
        XmlItemView::Characters(text) => after_characters(d, text),
        _ => d,
    }
}

/// The dataset after the events `evs`, in order.
pub open spec fn after_events(d: DatasetView, evs: Seq<XmlItemView>) -> DatasetView
    decreases evs.len(),
{
    if evs.len() == 0 {
        d
    } else {
        after_event(after_events(d, evs.drop_last()), evs.last())
    }
}

/// The number of events before the first error (all of them, if none).
pub open spec fn events_before_error(evs: Seq<XmlItemView>) -> nat
    decreases evs.len(),
{
    if evs.len() == 0 {
        0
    } else if evs[0] is Error {
        0
    } else {
        1 + events_before_error(evs.drop_first())
    }
}

/// The dataset after its VOTable's events up to the first error: it then has its VOTable.
pub open spec fn with_votable(d: DatasetView, evs: Seq<XmlItemView>) -> DatasetView {
    DatasetView { has_votable: true, ..after_events(d, evs.take(events_before_error(evs) as int)) }
}

/// Whether `e` starts a table cell.
pub open spec fn is_cell_start(e: XmlItemView) -> bool {
    e matches XmlItemView::StartElement { name, .. } && name == "TD"@
}

/// The column position after the events `evs`, from position `p`: a FIELD
/// returns to 0, a cell moves one on.
pub open spec fn position_after(p: int, evs: Seq<XmlItemView>) -> int
    decreases evs.len(),
{
    if evs.len() == 0 {
        p
    } else {
        let q = position_after(p, evs.drop_last());
        match evs.last() {
            XmlItemView::StartElement { name, .. } => if name == "FIELD"@ {
                0
            } else if name == "TD"@ {
                q + 1
            } else {
                q
            },
            _ => q,
        }
    }
}

/// Whether reading the events `evs` from column position `p` keeps the
/// position within `i32`: no cell starts at position `i32::MAX`.
pub open spec fn positions_fit(p: int, evs: Seq<XmlItemView>) -> bool {
    forall|i: int|
        0 <= i < events_before_error(evs) && #[trigger] is_cell_start(evs[i]) ==> position_after(
            p,
            evs.take(i),
        ) < i32::MAX
}

proof fn lemma_events_before_error(evs: Seq<XmlItemView>, i: int)
    requires
        0 <= i <= evs.len(),
        forall|j: int| 0 <= j < i ==> !(#[trigger] evs[j] is Error),
        i == evs.len() || evs[i] is Error,
    ensures
        events_before_error(evs) == i,
    decreases i,
{
    if i > 0 {
        lemma_events_before_error(evs.drop_first(), i - 1);
    }
}

proof fn lemma_position_tracks(d: DatasetView, evs: Seq<XmlItemView>)
    requires
        forall|i: int|
            0 <= i < evs.len() && #[trigger] is_cell_start(evs[i]) ==> position_after(
                d.current_pos as int,
                evs.take(i),
            ) < i32::MAX,
    ensures
        after_events(d, evs).current_pos == position_after(d.current_pos as int, evs),
    decreases evs.len(),
{
    if evs.len() > 0 {
        let prefix = evs.drop_last();
        assert forall|i: int|
            0 <= i < prefix.len() && #[trigger] is_cell_start(prefix[i]) implies position_after(
            d.current_pos as int,
            prefix.take(i),
        ) < i32::MAX by {
            assert(prefix[i] == evs[i]);
            assert(prefix.take(i) =~= evs.take(i));
            assert(is_cell_start(evs[i]));
        }
        lemma_position_tracks(d, prefix);
        let k = evs.len() - 1;
        assert(evs.take(k) =~= prefix);
        if is_cell_start(evs[k]) {
            assert(position_after(d.current_pos as int, evs.take(k)) < i32::MAX);
        }
    }
}

impl SubaruDataset {
    /// Reads the start of an element.
    pub fn read_start_element(&mut self, name: &String, attributes: &Vec<XmlAttribute>)
        requires
            name@ == "TD"@ ==> old(self).current_pos < i32::MAX,
        ensures
            final(self)@ == after_start_element(old(self)@, name@, attribute_pairs(attributes@)),
    {
        if text_equals(name.as_str(), "FIELD") {
            let n = attributes.len();
            let mut i: usize = 0;
            let ghost d0 = self@;
            let ghost pairs = attribute_pairs(attributes@);
            assert(pairs.take(0) =~= Seq::<(Seq<char>, Seq<char>)>::empty());
            while i < n
                invariant
                    n == attributes@.len(),
                    pairs == attribute_pairs(attributes@),
                    i <= n,
                    self@ == after_field_attributes(d0, pairs.take(i as int)),
                decreases n - i,
            {
                let attr = &attributes[i];
                self.read_field_attribute(&attr.name, &attr.value);
                assert(pairs.take(i + 1).drop_last() =~= pairs.take(i as int));
                i = i + 1;
            }
            assert(pairs.take(n as int) =~= pairs);
            self.current_pos = 0;
        } else if text_equals(name.as_str(), "TD") {
            self.current_pos = self.current_pos + 1;
        }
    }
}

proof fn lemma_no_error_prefix(evs: Seq<XmlItemView>, k: int)
    requires
        0 <= k <= evs.len(),
        forall|j: int| 0 <= j < k ==> !(#[trigger] evs[j] is Error),
    ensures
        events_before_error(evs) >= k,
    decreases k,
{
    if k > 0 {
        assert forall|j: int| 0 <= j < k - 1 implies !(#[trigger] evs.drop_first()[j] is Error) by {
            assert(evs.drop_first()[j] == evs[j + 1]);
        }
        lemma_no_error_prefix(evs.drop_first(), k - 1);
    }
}

/// Whether an event is a reader error.
fn is_reader_error(e: &XmlItem) -> (r: bool)
    ensures
        r == (e@ is Error),
{
    match e {
        XmlItem::Error => true,
        _ => false,
    }
}

/// Whether reading `events` from column position `p` keeps every column
/// position within `i32`.
pub fn positions_stay_in_range(p: i32, events: &Vec<XmlItem>) -> (r: bool)
    ensures
        r == positions_fit(p as int, item_views(events@)),
{
    let n = events.len();
    let ghost evs = item_views(events@);
    let mut q: i64 = p as i64;
    let mut i: usize = 0;
    assert(evs.take(0) =~= Seq::<XmlItemView>::empty());
    while i < n && !is_reader_error(&events[i])
        invariant
            n == events@.len(),
            evs == item_views(events@),
            i <= n,
            q as int == position_after(p as int, evs.take(i as int)),
            q <= i32::MAX,
            forall|j: int| 0 <= j < i ==> !(#[trigger] evs[j] is Error),
            forall|j: int|
                0 <= j < i && #[trigger] is_cell_start(evs[j]) ==> position_after(
                    p as int,
                    evs.take(j),
                ) < i32::MAX,
        decreases n - i,
    {
        assert(evs[i as int] == events@[i as int]@);
        assert(evs.take(i + 1).drop_last() =~= evs.take(i as int));
        match &events[i] {
            XmlItem::StartElement { name, .. } => {
                if text_equals(name.as_str(), "FIELD") {
                    proof {
                        reveal_strlit("FIELD");
                        reveal_strlit("TD");
                        assert("FIELD"@.len() != "TD"@.len());
                    }
                    q = 0;
                } else if text_equals(name.as_str(), "TD") {
                    assert(is_cell_start(evs[i as int]));
                    if q >= 2147483647 {
                        proof {
                            lemma_no_error_prefix(evs, i + 1);
                        }
                        return false;
                    }
                    q = q + 1;
                }
            },
            _ => {},
        }
        assert(is_cell_start(evs[i as int]) ==> position_after(p as int, evs.take(i as int))
            < i32::MAX);
        i = i + 1;
    }
    proof {
        lemma_events_before_error(evs, i as int);
    }
    true
}

/// Reads a dataset's VOTable events into it, up to the first error, and
/// marks it as having its VOTable.
pub fn apply_votable_events(dataset: &mut SubaruDataset, events: &Vec<XmlItem>)
    requires
        positions_fit(old(dataset).current_pos as int, item_views(events@)),
    ensures
        final(dataset)@ == with_votable(old(dataset)@, item_views(events@)),
{
    let n = events.len();
    let ghost evs = item_views(events@);
    let ghost d0 = dataset@;
    let mut i: usize = 0;
    assert(evs.take(0) =~= Seq::<XmlItemView>::empty());
    while i < n && !is_reader_error(&events[i])
        invariant
            n == events@.len(),
            evs == item_views(events@),
            i <= n,
            positions_fit(d0.current_pos as int, evs),
            dataset@ == after_events(d0, evs.take(i as int)),
            forall|j: int| 0 <= j < i ==> !(#[trigger] evs[j] is Error),
        decreases n - i,
    {
        assert(evs[i as int] == events@[i as int]@);
        assert(evs.take(i + 1).drop_last() =~= evs.take(i as int));
        proof {
            lemma_no_error_prefix(evs, i + 1);
            let pre = evs.take(i as int);
            assert forall|k: int|
                0 <= k < pre.len() && #[trigger] is_cell_start(pre[k]) implies position_after(
                d0.current_pos as int,
                pre.take(k),
            ) < i32::MAX by {
                assert(pre[k] == evs[k]);
                assert(pre.take(k) =~= evs.take(k));
                assert(is_cell_start(evs[k]));
            }
            lemma_position_tracks(d0, pre);
            if is_cell_start(evs[i as int]) {
                assert(position_after(d0.current_pos as int, evs.take(i as int)) < i32::MAX);
            }
        }
        match &events[i] {
            XmlItem::StartElement { name, attributes } => {
                dataset.read_start_element(name, attributes);
            },
            XmlItem::Characters(text) => {
                dataset.read_characters(text);
            },
            _ => {},
        }
        i = i + 1;
    }
    proof {
        lemma_events_before_error(evs, i as int);
    }
    dataset.has_votable = true;
}

/// Reads a dataset's VOTable, the XML document `xml`, into it: the metadata
/// of its columns, up to the first XML error. Returns whether it did; it
/// does not, and leaves the dataset unchanged, only where a column position
/// would leave `i32`.
pub fn subaru_votable(dataset: &mut SubaruDataset, xml: &[u8]) -> (read: bool)
    ensures
        read == positions_fit(old(dataset).current_pos as int, xml_events(xml@)),
        read ==> final(dataset)@ == with_votable(old(dataset)@, xml_events(xml@)),
        !read ==> final(dataset)@ == old(dataset)@,
{
    let events = read_xml_events(xml);
    if positions_stay_in_range(dataset.current_pos, &events) {
        apply_votable_events(dataset, &events);
        true
    } else {
        false
    }
}

proof fn lemma_field_attributes_keep_data(d: DatasetView, attrs: Seq<(Seq<char>, Seq<char>)>)
    ensures
        after_field_attributes(d, attrs).data_id == d.data_id,
        after_field_attributes(d, attrs).timestamp == d.timestamp,
        after_field_attributes(d, attrs).has_votable == d.has_votable,
        after_field_attributes(d, attrs).has_fits == d.has_fits,
    decreases attrs.len(),
{
    if attrs.len() > 0 {
        lemma_field_attributes_keep_data(d, attrs.drop_last());
    }
}

proof fn lemma_events_keep_data(d: DatasetView, evs: Seq<XmlItemView>)
    ensures
        after_events(d, evs).data_id == d.data_id,
        after_events(d, evs).timestamp == d.timestamp,
        after_events(d, evs).has_votable == d.has_votable,
        after_events(d, evs).has_fits == d.has_fits,
    decreases evs.len(),
{
    if evs.len() > 0 {
        let p = after_events(d, evs.drop_last());
        lemma_events_keep_data(d, evs.drop_last());
        match evs.last() {
            XmlItemView::StartElement { name, attributes } => {
                lemma_field_attributes_keep_data(p, attributes);
            },
            _ => {},
        }
    }
}

/// Reading a VOTable keeps the dataset's identity: its data id, time stamp
/// and FITS state stay, and it then has its VOTable.
pub proof fn lemma_votable_keeps_identity(d: DatasetView, evs: Seq<XmlItemView>)
    ensures
        with_votable(d, evs).data_id == d.data_id,
        with_votable(d, evs).timestamp == d.timestamp,
        with_votable(d, evs).has_fits == d.has_fits,
        with_votable(d, evs).has_votable,
{
    lemma_events_keep_data(d, evs.take(events_before_error(evs) as int));
}

/// Every column that cell text is read into lies before the current column
/// position: the table row being read has passed all of them.
pub open spec fn columns_passed(d: DatasetView) -> bool {
    &&& d.process_id_pos < d.current_pos
    &&& d.title_pos < d.current_pos
    &&& d.date_obs_pos < d.current_pos
    &&& d.objects_pos < d.current_pos
    &&& d.band_name_pos < d.current_pos
    &&& d.band_ref_pos < d.current_pos
    &&& d.band_hi_pos < d.current_pos
    &&& d.band_lo_pos < d.current_pos
    &&& d.band_unit_pos < d.current_pos
    &&& d.ra_pos < d.current_pos
    &&& d.dec_pos < d.current_pos
    &&& d.file_size_pos < d.current_pos
    &&& d.file_path_pos < d.current_pos
    &&& d.file_url_pos < d.current_pos
}

/// Whether `e` starts a FIELD element.
pub open spec fn is_field_start(e: XmlItemView) -> bool {
    e matches XmlItemView::StartElement { name, .. } && name == "FIELD"@
}

proof fn lemma_after_events_concat(d: DatasetView, a: Seq<XmlItemView>, b: Seq<XmlItemView>)
    ensures
        after_events(d, a + b) == after_events(after_events(d, a), b),
    decreases b.len(),
{
    if b.len() == 0 {
        assert(a + b =~= a);
    } else {
        lemma_after_events_concat(d, a, b.drop_last());
        assert((a + b).drop_last() =~= a + b.drop_last());
        assert((a + b).last() == b.last());
    }
}

proof fn lemma_position_after_concat(p: int, a: Seq<XmlItemView>, b: Seq<XmlItemView>)
    ensures
        position_after(p, a + b) == position_after(position_after(p, a), b),
    decreases b.len(),
{
    if b.len() == 0 {
        assert(a + b =~= a);
    } else {
        lemma_position_after_concat(p, a, b.drop_last());
        assert((a + b).drop_last() =~= a + b.drop_last());
        assert((a + b).last() == b.last());
    }
}

/// Every column that cell text is read into lies at or before the current
/// column position: the table row being read has reached all of them.
pub open spec fn columns_reached(d: DatasetView) -> bool {
    &&& d.process_id_pos <= d.current_pos
    &&& d.title_pos <= d.current_pos
    &&& d.date_obs_pos <= d.current_pos
    &&& d.objects_pos <= d.current_pos
    &&& d.band_name_pos <= d.current_pos
    &&& d.band_ref_pos <= d.current_pos
    &&& d.band_hi_pos <= d.current_pos
    &&& d.band_lo_pos <= d.current_pos
    &&& d.band_unit_pos <= d.current_pos
    &&& d.ra_pos <= d.current_pos
    &&& d.dec_pos <= d.current_pos
    &&& d.file_size_pos <= d.current_pos
    &&& d.file_path_pos <= d.current_pos
    &&& d.file_url_pos <= d.current_pos
}

/// Every text in `evs` comes after a cell start: text only stands in table cells.
pub open spec fn text_follows_cell(evs: Seq<XmlItemView>) -> bool {
    forall|i: int|
        0 <= i < evs.len() && (#[trigger] evs[i] is Characters) ==> exists|j: int|
            0 <= j < i && #[trigger] is_cell_start(evs[j])
}

/// Once the row being read has reached every column, later cells, texts and
/// other elements (no FIELD) change nothing but the column position, where
/// the row has passed every column or each text stands in a cell: rows after
/// the one that reached the last column are ignored.
pub proof fn lemma_later_rows_ignored(d: DatasetView, evs: Seq<XmlItemView>)
    requires
        columns_reached(d),
        columns_passed(d) || text_follows_cell(evs),
        forall|i: int| 0 <= i < evs.len() ==> !#[trigger] is_field_start(evs[i]),
        forall|i: int|
            0 <= i < evs.len() && #[trigger] is_cell_start(evs[i]) ==> position_after(
                d.current_pos as int,
                evs.take(i),
            ) < i32::MAX,
    ensures
        after_events(d, evs) == (DatasetView { current_pos: after_events(d, evs).current_pos, ..d }),
        after_events(d, evs).current_pos == position_after(d.current_pos as int, evs),
        columns_reached(after_events(d, evs)),
        columns_passed(after_events(d, evs)) || (after_events(d, evs).current_pos == d.current_pos
            && forall|i: int| 0 <= i < evs.len() ==> !#[trigger] is_cell_start(evs[i])),
    decreases evs.len(),
{
    if evs.len() > 0 {
        let pre = evs.drop_last();
        let k = evs.len() - 1;
        assert forall|i: int| 0 <= i < pre.len() implies !#[trigger] is_field_start(pre[i]) by {
            assert(pre[i] == evs[i]);
        }
        assert forall|i: int|
            0 <= i < pre.len() && #[trigger] is_cell_start(pre[i]) implies position_after(
            d.current_pos as int,
            pre.take(i),
        ) < i32::MAX by {
            assert(pre[i] == evs[i]);
            assert(pre.take(i) =~= evs.take(i));
            assert(is_cell_start(evs[i]));
        }
        if !columns_passed(d) {
            assert forall|i: int|
                0 <= i < pre.len() && (#[trigger] pre[i] is Characters) implies exists|j: int|
                0 <= j < i && #[trigger] is_cell_start(pre[j]) by {
                assert(pre[i] == evs[i]);
                let j = choose|j: int| 0 <= j < i && #[trigger] is_cell_start(evs[j]);
                assert(pre[j] == evs[j]);
            }
        }
        lemma_later_rows_ignored(d, pre);
        let r = after_events(d, pre);
        assert(evs.take(k) =~= pre);
        assert(!is_field_start(evs[k]));
        if is_cell_start(evs[k]) {
            assert(position_after(d.current_pos as int, evs.take(k)) < i32::MAX);
        }
        if evs[k] is Characters && !columns_passed(r) {
            assert(!columns_passed(d));
            let j = choose|j: int| 0 <= j < k && #[trigger] is_cell_start(evs[j]);
            assert(pre[j] == evs[j]);
            assert(false);
        }
        if !columns_passed(after_events(d, evs)) {
            assert forall|i: int| 0 <= i < evs.len() implies !#[trigger] is_cell_start(evs[i]) by {
                if i < k {
                    assert(pre[i] == evs[i]);
                }
            }
        }
    }
}

/// Reading a table whose first rows have reached every column gives the
/// same dataset, but for the column position, whatever rows (and other
/// elements but FIELDs) follow them, where those rows have passed every
/// column or all later text stands in cells: further rows added after those
/// first ones never change the result.
pub proof fn lemma_rows_after_first_ignored(
    d: DatasetView,
    first: Seq<XmlItemView>,
    extra: Seq<XmlItemView>,
    rest: Seq<XmlItemView>,
)
    requires
        columns_reached(after_events(d, first)),
        columns_passed(after_events(d, first)) || (text_follows_cell(extra + rest)
            && text_follows_cell(rest)),
        forall|i: int| 0 <= i < first.len() ==> !(#[trigger] first[i] is Error),
        forall|i: int|
            0 <= i < extra.len() ==> !(#[trigger] extra[i] is Error) && !is_field_start(extra[i]),
        forall|i: int|
            0 <= i < rest.len() ==> !(#[trigger] rest[i] is Error) && !is_field_start(rest[i]),
        positions_fit(d.current_pos as int, first + extra + rest),
        positions_fit(d.current_pos as int, first + rest),
    ensures
        with_votable(d, first + extra + rest) == (DatasetView {
            current_pos: with_votable(d, first + extra + rest).current_pos,
            ..with_votable(d, first + rest)
        }),
{
    let long = first + extra + rest;
    let short = first + rest;
    let tail = extra + rest;
    assert(long =~= first + tail);
    assert forall|j: int| 0 <= j < long.len() implies !(#[trigger] long[j] is Error) by {
        if j < first.len() {
            assert(long[j] == first[j]);
        } else if j < first.len() + extra.len() {
            assert(long[j] == extra[j - first.len()]);
        } else {
            assert(long[j] == rest[j - first.len() - extra.len()]);
        }
    }
    assert forall|j: int| 0 <= j < short.len() implies !(#[trigger] short[j] is Error) by {
        if j < first.len() {
            assert(short[j] == first[j]);
        } else {
            assert(short[j] == rest[j - first.len()]);
        }
    }
    lemma_events_before_error(long, long.len() as int);
    lemma_events_before_error(short, short.len() as int);
    assert(long.take(long.len() as int) =~= long);
    assert(short.take(short.len() as int) =~= short);
    let p = d.current_pos as int;
    // the position after the first rows is what the reading reached
    assert forall|i: int|
        0 <= i < first.len() && #[trigger] is_cell_start(first[i]) implies position_after(
        p,
        first.take(i),
    ) < i32::MAX by {
        assert(long[i] == first[i]);
        assert(long.take(i) =~= first.take(i));
        assert(is_cell_start(long[i]));
    }
    lemma_position_tracks(d, first);
    let d1 = after_events(d, first);
    assert(d1.current_pos == position_after(p, first));
    lemma_after_events_concat(d, first, tail);
    lemma_after_events_concat(d, first, rest);
    assert forall|i: int|
        0 <= i < tail.len() && #[trigger] is_cell_start(tail[i]) implies position_after(
        d1.current_pos as int,
        tail.take(i),
    ) < i32::MAX by {
        let j = first.len() + i;
        assert(long[j] == tail[i]);
        assert(is_cell_start(long[j]));
        assert(long.take(j) =~= first + tail.take(i));
        lemma_position_after_concat(p, first, tail.take(i));
    }
    assert forall|i: int| 0 <= i < tail.len() implies !#[trigger] is_field_start(tail[i]) by {
        if i < extra.len() {
            assert(tail[i] == extra[i]);
        } else {
            assert(tail[i] == rest[i - extra.len()]);
        }
    }
    assert forall|i: int|
        0 <= i < rest.len() && #[trigger] is_cell_start(rest[i]) implies position_after(
        d1.current_pos as int,
        rest.take(i),
    ) < i32::MAX by {
        let j = first.len() + i;
        assert(short[j] == rest[i]);
        assert(is_cell_start(short[j]));
        assert(short.take(j) =~= first + rest.take(i));
        lemma_position_after_concat(p, first, rest.take(i));
    }
    assert forall|i: int| 0 <= i < rest.len() implies !#[trigger] is_field_start(rest[i]) by {
    }
    lemma_later_rows_ignored(d1, tail);
    lemma_later_rows_ignored(d1, rest);
}

proof fn lemma_events_before_error_at_most(evs: Seq<XmlItemView>)
    ensures
        events_before_error(evs) <= evs.len(),
    decreases evs.len(),
{
    if evs.len() > 0 {
        lemma_events_before_error_at_most(evs.drop_first());
    }
}

proof fn lemma_position_grows_by_at_most_one(p: int, evs: Seq<XmlItemView>)
    ensures
        position_after(p, evs) <= (if p > 0 { p } else { 0 }) + evs.len(),
    decreases evs.len(),
{
    if evs.len() > 0 {
        lemma_position_grows_by_at_most_one(p, evs.drop_last());
    }
}

/// A VOTable is refused only where a column position could leave `i32`:
/// each event moves the position on by one at most, so a document with
/// fewer events than the room left above the starting position is always
/// read, whatever its number of fields, rows or cells.
pub proof fn lemma_short_documents_fit(p: i32, evs: Seq<XmlItemView>)
    requires
        (if p > 0 { p as int } else { 0 }) + evs.len() <= i32::MAX,
    ensures
        positions_fit(p as int, evs),
{
    lemma_events_before_error_at_most(evs);
    assert forall|i: int|
        0 <= i < events_before_error(evs) && #[trigger] is_cell_start(evs[i]) implies position_after(
        p as int,
        evs.take(i),
    ) < i32::MAX by {
        lemma_position_grows_by_at_most_one(p as int, evs.take(i));
    }
}

/// The start of a table cell.
pub open spec fn cell_start() -> XmlItemView {
    XmlItemView::StartElement { name: "TD"@, attributes: Seq::empty() }
}

/// The events of a table whose one FIELD, with ID `C<k>`, is named TITLE,
/// followed by a row of `k` cells whose last holds the text `t`.
pub open spec fn title_table(k: i32, t: Seq<char>) -> Seq<XmlItemView> {
    seq![
        XmlItemView::StartElement {
            name: "FIELD"@,
            attributes: seq![("ID"@, seq!['C'] + decimal_string(k as nat)), ("name"@, "TITLE"@)],
        },
    ] + Seq::new(k as nat, |i: int| cell_start()) + seq![XmlItemView::Characters(t)]
}

proof fn lemma_cells_advance(d: DatasetView, n: nat)
    requires
        d.current_pos + n <= i32::MAX,
    ensures
        after_events(d, Seq::new(n, |i: int| cell_start())) == (DatasetView {
            current_pos: (d.current_pos + n) as i32,
            ..d
        }),
    decreases n,
{
    reveal_strlit("TD");
    reveal_strlit("FIELD");
    assert("TD"@.len() != "FIELD"@.len());
    let cells = Seq::new(n, |i: int| cell_start());
    if n > 0 {
        lemma_cells_advance(d, (n - 1) as nat);
        assert(cells.drop_last() =~= Seq::new((n - 1) as nat, |i: int| cell_start()));
    } else {
        assert(cells.len() == 0);
    }
}

/// The text of a cell is read into the field whose FIELD places it: in a
/// table whose FIELD `C<k>` is named TITLE, the text of the row's `k`-th
/// cell becomes the dataset's title, and the table is read.
pub proof fn lemma_title_cell_is_read(data_id: Seq<char>, timestamp: u64, k: i32, t: Seq<char>)
    requires
        k >= 1,
    ensures
        with_votable(fresh_dataset(data_id, timestamp), title_table(k, t)).title == t,
        with_votable(fresh_dataset(data_id, timestamp), title_table(k, t)).title_pos == k,
        with_votable(fresh_dataset(data_id, timestamp), title_table(k, t)).has_votable,
{
    reveal_strlit("ID");
    reveal_strlit("name");
    reveal_strlit("TITLE");
    reveal_strlit("DATA_ID");
    reveal_strlit("PROC_ID");
    reveal_strlit("FIELD");
    reveal_strlit("TD");
    let d0 = fresh_dataset(data_id, timestamp);
    let idv = seq!['C'] + decimal_string(k as nat);
    let attrs = seq![("ID"@, idv), ("name"@, "TITLE"@)];
    // the FIELD: ID places the current column at k, name puts TITLE there
    assert(trimmed("ID"@) == "ID"@) by {
        assert(crate::text::trimmed_start("ID"@) == "ID"@);
        assert(crate::text::trimmed_end("ID"@) == "ID"@);
    }
    assert(trimmed("name"@) == "name"@) by {
        assert(crate::text::trimmed_start("name"@) == "name"@);
        assert(crate::text::trimmed_end("name"@) == "name"@);
    }
    assert(trimmed("TITLE"@) == "TITLE"@) by {
        assert(crate::text::trimmed_start("TITLE"@) == "TITLE"@);
        assert(crate::text::trimmed_end("TITLE"@) == "TITLE"@);
    }
    assert("name"@.len() != "ID"@.len());
    assert("TITLE"@.len() != "DATA_ID"@.len());
    assert("TITLE"@.len() != "PROC_ID"@.len());
    assert(column_named("TITLE"@) == Some(Column::Title));
    lemma_column_id_round_trip(k);
    let a1 = after_field_attribute(d0, attrs[0]);
    assert(a1 == (DatasetView { current_pos: k, ..d0 }));
    let a2 = after_field_attribute(a1, attrs[1]);
    assert(a2 == (DatasetView { title_pos: k, ..a1 }));
    assert(attrs.drop_last() =~= seq![attrs[0]]);
    assert(seq![attrs[0]].drop_last() =~= Seq::<(Seq<char>, Seq<char>)>::empty());
    assert(after_field_attributes(d0, Seq::<(Seq<char>, Seq<char>)>::empty()) == d0);
    assert(after_field_attributes(d0, seq![attrs[0]]) == a1);
    assert(after_field_attributes(d0, attrs) == a2);
    let field = XmlItemView::StartElement { name: "FIELD"@, attributes: attrs };
    let d1 = DatasetView { current_pos: 0, ..a2 };
    assert(after_event(d0, field) == d1);
    assert(seq![field].drop_last() =~= Seq::<XmlItemView>::empty());
    assert(after_events(d0, Seq::<XmlItemView>::empty()) == d0);
    assert(after_events(d0, seq![field]) == d1);
    // the row: k cells move the position to k
    let cells = Seq::new(k as nat, |i: int| cell_start());
    lemma_cells_advance(d1, k as nat);
    lemma_after_events_concat(d0, seq![field], cells);
    let d2 = DatasetView { current_pos: k, ..d1 };
    assert(after_events(d0, seq![field] + cells) == d2);
    // the text of the k-th cell goes to the title
    let text = seq![XmlItemView::Characters(t)];
    lemma_after_events_concat(d0, seq![field] + cells, text);
    assert(text.drop_last() =~= Seq::<XmlItemView>::empty());
    assert(after_events(d2, Seq::<XmlItemView>::empty()) == d2);
    assert(after_events(d2, text) == after_characters(d2, t));
    let evs = title_table(k, t);
    assert(evs == seq![field] + cells + text);
    assert(after_events(d0, evs) == after_characters(d2, t));
    assert forall|j: int| 0 <= j < evs.len() implies !(#[trigger] evs[j] is Error) by {
        if j == 0 {
        } else if j < 1 + k {
            assert(evs[j] == cells[j - 1]);
        } else {
            assert(evs[j] == text[0]);
        }
    }
    lemma_events_before_error(evs, evs.len() as int);
    assert(evs.take(evs.len() as int) =~= evs);
}

} // verus!
