//! The datasets that the service has seen, keyed by data id, and the page
//! request that works on them.

use vstd::prelude::*;

use crate::dataset::{fresh_dataset, text_equals, DatasetView, SubaruDataset};
use crate::page::{fits_file, page_html, render_page, subaru_fits};
use crate::votable::{
    lemma_votable_keeps_identity, positions_fit, subaru_votable, with_votable, xml_events,
    XmlItemView,
};

verus! {

/// The map from data id to dataset that a list of datasets (with distinct
/// ids) stands for.
pub open spec fn dataset_map(s: Seq<DatasetView>) -> Map<Seq<char>, DatasetView>
    decreases s.len(),
{
    if s.len() == 0 {
        Map::empty()
    } else {
        dataset_map(s.drop_last()).insert(s.last().data_id, s.last())
    }
}

/// No two datasets of `s` have the same id.
pub open spec fn distinct_ids(s: Seq<DatasetView>) -> bool {
    forall|i: int, j: int|
        0 <= i < s.len() && 0 <= j < s.len() && i != j ==> #[trigger] s[i].data_id
            != #[trigger] s[j].data_id
}

/// The datasets after a request for `data_id` at time `now` has found or
/// made its entry: a new id gets a fresh dataset.
pub open spec fn with_entry(m: Map<Seq<char>, DatasetView>, data_id: Seq<char>, now: u64) -> Map<
    Seq<char>,
    DatasetView,
> {
    if m.contains_key(data_id) {
        m
    } else {
        m.insert(data_id, fresh_dataset(data_id, now))
    }
}

proof fn lemma_map_keys(s: Seq<DatasetView>, k: Seq<char>)
    ensures
        dataset_map(s).contains_key(k) <==> exists|i: int| 0 <= i < s.len() && #[trigger] s[i].data_id == k,
    decreases s.len(),
{
    if s.len() > 0 {
        let p = s.drop_last();
        lemma_map_keys(p, k);
        if dataset_map(s).contains_key(k) && k != s.last().data_id {
            let i = choose|i: int| 0 <= i < p.len() && #[trigger] p[i].data_id == k;
            assert(s[i] == p[i]);
        }
        if exists|i: int| 0 <= i < s.len() && #[trigger] s[i].data_id == k {
            let i = choose|i: int| 0 <= i < s.len() && #[trigger] s[i].data_id == k;
            if i < s.len() - 1 {
                assert(p[i] == s[i]);
            }
        }
    }
}

proof fn lemma_distinct_drop_last(s: Seq<DatasetView>)
    requires
        distinct_ids(s),
        s.len() > 0,
    ensures
        distinct_ids(s.drop_last()),
{
    let p = s.drop_last();
    assert forall|a: int, b: int|
        0 <= a < p.len() && 0 <= b < p.len() && a != b implies #[trigger] p[a].data_id
        != #[trigger] p[b].data_id by {
        assert(p[a] == s[a] && p[b] == s[b]);
    }
}

proof fn lemma_map_at(s: Seq<DatasetView>, i: int)
    requires
        distinct_ids(s),
        0 <= i < s.len(),
    ensures
        dataset_map(s).contains_key(s[i].data_id),
        dataset_map(s)[s[i].data_id] == s[i],
    decreases s.len(),
{
    let p = s.drop_last();
    if i < s.len() - 1 {
        assert(p[i] == s[i]);
        lemma_distinct_drop_last(s);
        lemma_map_at(p, i);
        assert(s[i].data_id != s.last().data_id);
    }
}

proof fn lemma_map_update(s: Seq<DatasetView>, i: int, d: DatasetView)
    requires
        distinct_ids(s),
        0 <= i < s.len(),
        d.data_id == s[i].data_id,
    ensures
        distinct_ids(s.update(i, d)),
        dataset_map(s.update(i, d)) == dataset_map(s).insert(d.data_id, d),
    decreases s.len(),
{
    let t = s.update(i, d);
    assert(distinct_ids(t)) by {
        assert forall|a: int, b: int|
            0 <= a < t.len() && 0 <= b < t.len() && a != b implies #[trigger] t[a].data_id
            != #[trigger] t[b].data_id by {
            assert(t[a].data_id == s[a].data_id);
            assert(t[b].data_id == s[b].data_id);
        }
    }
    let p = s.drop_last();
    lemma_distinct_drop_last(s);
    if i == s.len() - 1 {
        assert(t.drop_last() =~= p);
        assert(dataset_map(t) =~= dataset_map(s).insert(d.data_id, d));
    } else {
        lemma_map_update(p, i, d);
        assert(t.drop_last() =~= p.update(i, d));
        assert(s.last().data_id != d.data_id) by {
            assert(s[s.len() - 1].data_id != s[i].data_id);
        }
        assert(dataset_map(t) =~= dataset_map(s).insert(d.data_id, d));
    }
}

/// The views of a list of datasets.
pub open spec fn views_of(v: Seq<SubaruDataset>) -> Seq<DatasetView> {
    v.map_values(|d: SubaruDataset| d@)
}

/// The position in `entries` of the dataset of `data_id`, if there is one.
fn position_in(entries: &Vec<SubaruDataset>, data_id: &str) -> (r: Option<usize>)
    ensures
        r matches Some(i) ==> i < entries@.len() && views_of(entries@)[i as int].data_id == data_id@,
        r is None ==> !dataset_map(views_of(entries@)).contains_key(data_id@),
{
    let n = entries.len();
    let ghost views = views_of(entries@);
    let mut i: usize = 0;
    while i < n
        invariant
            n == entries@.len(),
            views == views_of(entries@),
            i <= n,
            forall|j: int| 0 <= j < i ==> #[trigger] views[j].data_id != data_id@,
        decreases n - i,
    {
        assert(views[i as int] == entries@[i as int]@);
        if text_equals(entries[i].data_id.as_str(), data_id) {
            return Some(i);
        }
        i = i + 1;
    }
    proof {
        lemma_map_keys(views, data_id@);
    }
    None
}

/// Finds in `entries` the dataset of `data_id`, adding a fresh one stamped
/// `now` if there is none; returns its position.
fn entry_in(entries: &mut Vec<SubaruDataset>, data_id: &String, now: u64) -> (i: usize)
    requires
        distinct_ids(views_of(old(entries)@)),
    ensures
        distinct_ids(views_of(final(entries)@)),
        dataset_map(views_of(final(entries)@)) == with_entry(
            dataset_map(views_of(old(entries)@)),
            data_id@,
            now,
        ),
        i < final(entries)@.len(),
        views_of(final(entries)@)[i as int].data_id == data_id@,
{
    match position_in(entries, data_id.as_str()) {
        Some(i) => {
            proof {
                lemma_map_at(views_of(entries@), i as int);
                lemma_map_keys(views_of(entries@), data_id@);
            }
            i
        },
        None => {
            let ghost before = views_of(entries@);
            entries.push(SubaruDataset::new(data_id, now));
            proof {
                let after = views_of(entries@);
                assert(after =~= before.push(fresh_dataset(data_id@, now)));
                assert(after.drop_last() =~= before);
                lemma_map_keys(before, data_id@);
                assert forall|a: int, b: int|
                    0 <= a < after.len() && 0 <= b < after.len() && a != b implies #[trigger] after[a].data_id
                    != #[trigger] after[b].data_id by {
                    if a < before.len() && b < before.len() {
                        assert(after[a] == before[a]);
                        assert(after[b] == before[b]);
                    } else if a < before.len() {
                        assert(after[a] == before[a]);
                    } else {
                        assert(after[b] == before[b]);
                    }
                }
            }
            entries.len() - 1
        },
    }
}

/// The datasets that the service has seen, one for each data id.
pub struct DatasetCache {
    entries: Vec<SubaruDataset>,
}

impl DatasetCache {
    /// The datasets, in the order in which they were first requested.
    pub closed spec fn datasets(&self) -> Seq<DatasetView> {
        views_of(self.entries@)
    }

    /// No data id occurs twice.
    #[verifier::type_invariant]
    closed spec fn wf(&self) -> bool {
        distinct_ids(self.datasets())
    }

    /// A cache that holds no dataset.
    pub fn new() -> (r: DatasetCache)
        ensures
            r@ == Map::<Seq<char>, DatasetView>::empty(),
    {
        let entries: Vec<SubaruDataset> = Vec::new();
        assert(views_of(entries@) =~= Seq::<DatasetView>::empty());
        DatasetCache { entries }
    }

    /// The number of datasets held.
    pub fn len(&self) -> (n: usize)
        ensures
            n == self@.len(),
    {
        proof {
            use_type_invariant(self);
            lemma_dom_len_of(self.datasets());
        }
        self.entries.len()
    }

    /// The dataset of `data_id`, if there is one.
    pub fn get(&self, data_id: &str) -> (r: Option<&SubaruDataset>)
        ensures
            r is Some <==> self@.contains_key(data_id@),
            r matches Some(d) ==> d@ == self@[data_id@],
    {
        proof {
            use_type_invariant(self);
        }
        match position_in(&self.entries, data_id) {
            Some(i) => {
                proof {
                    lemma_map_at(self.datasets(), i as int);
                }
                assert(self.datasets()[i as int] == self.entries@[i as int]@);
                Some(&self.entries[i])
            },
            None => None,
        }
    }
}

proof fn lemma_dom_len_of(s: Seq<DatasetView>)
    requires
        distinct_ids(s),
    ensures
        dataset_map(s).dom().finite(),
        dataset_map(s).len() == s.len(),
    decreases s.len(),
{
    if s.len() > 0 {
        let p = s.drop_last();
        lemma_distinct_drop_last(s);
        lemma_dom_len_of(p);
        lemma_map_keys(p, s.last().data_id);
        if dataset_map(p).contains_key(s.last().data_id) {
            let i = choose|i: int| 0 <= i < p.len() && #[trigger] p[i].data_id == s.last().data_id;
            assert(s[i] == p[i]);
            assert(s[i].data_id != s[s.len() - 1].data_id);
        }
    }
}

impl View for DatasetCache {
    type V = Map<Seq<char>, DatasetView>;

    closed spec fn view(&self) -> Map<Seq<char>, DatasetView> {
        dataset_map(self.datasets())
    }
}

/// What a page request is answered.
pub enum SubaruOutcome {
    /// The dataset's VOTable is needed: ask again with it.
    NeedVotable,
    /// The VOTable was not read: a column position would leave `i32`.
    VotableRejected,
    /// The page; and the FITS file to fetch, the first time a page is served.
    Page { html: String, fits_filename: Option<String> },
}

/// The mathematical value of a `SubaruOutcome`.
pub enum OutcomeView {
    NeedVotable,
    VotableRejected,
    Page { html: Seq<char>, fits_filename: Option<Seq<char>> },
}

impl View for SubaruOutcome {
    type V = OutcomeView;

    open spec fn view(&self) -> OutcomeView {
        match self {
            SubaruOutcome::NeedVotable => OutcomeView::NeedVotable,
            SubaruOutcome::VotableRejected => OutcomeView::VotableRejected,
            SubaruOutcome::Page { html, fits_filename } => OutcomeView::Page {
                html: html@,
                fits_filename: match fits_filename {
                    Some(f) => Some(f@),
                    None => None,
                },
            },
        }
    }
}

/// The page of dataset `d` for `data_id`, and the dataset after it: its
/// FITS file is then handled.
pub open spec fn page_answer(data_id: Seq<char>, d: DatasetView) -> (OutcomeView, DatasetView) {
    (
        OutcomeView::Page {
            html: page_html(data_id, d),
            fits_filename: if d.has_fits {
                None
            } else {
                Some(fits_file(d.data_id))
            },
        },
        DatasetView { has_fits: true, ..d },
    )
}

/// A request for `data_id` at time `now` on its dataset `d`, with the events
/// of its VOTable where the caller gives them: the answer and the dataset after it.
pub open spec fn dataset_answer(
    d: DatasetView,
    data_id: Seq<char>,
    now: u64,
    votable: Option<Seq<XmlItemView>>,
) -> (OutcomeView, DatasetView) {
    let d0 = DatasetView { timestamp: now, ..d };
    if d0.has_votable {
        page_answer(data_id, d0)
    } else {
        match votable {
            None => (OutcomeView::NeedVotable, d0),
            Some(evs) => if positions_fit(d0.current_pos as int, evs) {
                page_answer(data_id, with_votable(d0, evs))
            } else {
                (OutcomeView::VotableRejected, d0)
            },
        }
    }
}

/// A request for `data_id` at time `now` on the datasets `m`: the answer
/// and the datasets after it.
pub open spec fn subaru_answer(
    m: Map<Seq<char>, DatasetView>,
    data_id: Seq<char>,
    now: u64,
    votable: Option<Seq<XmlItemView>>,
) -> (OutcomeView, Map<Seq<char>, DatasetView>) {
    let base = with_entry(m, data_id, now);
    let r = dataset_answer(base[data_id], data_id, now, votable);
    (r.0, base.insert(data_id, r.1))
}

/// The events of the VOTable `xml`, where there is one.
pub open spec fn votable_events(xml: Option<&[u8]>) -> Option<Seq<XmlItemView>> {
    match xml {
        Some(x) => Some(xml_events(x@)),
        None => None,
    }
}

proof fn lemma_dataset_answer_keeps_id(d: DatasetView, data_id: Seq<char>, now: u64, votable: Option<Seq<XmlItemView>>)
    ensures
        dataset_answer(d, data_id, now, votable).1.data_id == d.data_id,
{
    let d0 = DatasetView { timestamp: now, ..d };
    if let Some(evs) = votable {
        lemma_votable_keeps_identity(d0, evs);
    }
}

/// Answers a request for the dataset `subaru`, requested as `data_id` at
/// time `now`, with its VOTable `votable_xml` where the caller has it.
fn answer_request(
    subaru: &mut SubaruDataset,
    data_id: &String,
    now: u64,
    votable_xml: Option<&[u8]>,
) -> (outcome: SubaruOutcome)
    ensures
        (outcome@, final(subaru)@) == dataset_answer(old(subaru)@, data_id@, now, votable_events(votable_xml)),
{
    subaru.timestamp = now;
    if !subaru.has_votable {
        match votable_xml {
            None => {
                return SubaruOutcome::NeedVotable;
            },
            Some(xml) => {
                if !subaru_votable(subaru, xml) {
                    return SubaruOutcome::VotableRejected;
                }
            },
        }
    }
    let html = render_page(data_id.as_str(), subaru);
    let fits_filename = if !subaru.has_fits {
        Some(subaru_fits(subaru))
    } else {
        None
    };
    SubaruOutcome::Page { html, fits_filename }
}

/// Answers a page request for `data_id` at time `now`: finds or adds its
/// dataset, reads its VOTable `votable_xml` into it when it has none yet
/// (answering `NeedVotable` when the caller has not given it), and answers
/// its page, naming its FITS file the first time.
pub fn execute_subaru(
    cache: &mut DatasetCache,
    data_id: &String,
    now: u64,
    votable_xml: Option<&[u8]>,
) -> (outcome: SubaruOutcome)
    ensures
        (outcome@, final(cache)@) == subaru_answer(old(cache)@, data_id@, now, votable_events(votable_xml)),
{
    proof {
        use_type_invariant(&*cache);
    }
    let ghost s0 = cache.datasets();
    let mut entries: Vec<SubaruDataset> = Vec::new();
    std::mem::swap(&mut entries, &mut cache.entries);
    assert(views_of(entries@) == s0);
    let i = entry_in(&mut entries, data_id, now);
    let ghost s1 = views_of(entries@);
    proof {
        lemma_map_at(s1, i as int);
    }
    let outcome = answer_request(&mut entries[i], data_id, now, votable_xml);
    proof {
        let d1 = dataset_answer(s1[i as int], data_id@, now, votable_events(votable_xml)).1;
        lemma_dataset_answer_keeps_id(s1[i as int], data_id@, now, votable_events(votable_xml));
        assert(views_of(entries@) =~= s1.update(i as int, d1));
        lemma_map_update(s1, i as int, d1);
    }
    cache.entries = entries;
    outcome
}

/// Finding a dataset's entry twice makes it once: a second request for the
/// same id finds the dataset that the first one made.
pub proof fn lemma_entry_made_once(m: Map<Seq<char>, DatasetView>, data_id: Seq<char>, t1: u64, t2: u64)
    ensures
        with_entry(with_entry(m, data_id, t1), data_id, t2) == with_entry(m, data_id, t1),
        with_entry(m, data_id, t1).contains_key(data_id),
{
}

/// A request touches only the dataset it names.
pub proof fn lemma_other_datasets_untouched(
    m: Map<Seq<char>, DatasetView>,
    data_id: Seq<char>,
    now: u64,
    votable: Option<Seq<XmlItemView>>,
    other: Seq<char>,
)
    requires
        other != data_id,
    ensures
        subaru_answer(m, data_id, now, votable).1.contains_key(other) == m.contains_key(other),
        m.contains_key(other) ==> subaru_answer(m, data_id, now, votable).1[other] == m[other],
{
}

/// The VOTable is asked for exactly when the dataset has none and the
/// request brings none.
pub proof fn lemma_votable_asked_only_when_missing(
    m: Map<Seq<char>, DatasetView>,
    data_id: Seq<char>,
    now: u64,
    votable: Option<Seq<XmlItemView>>,
)
    ensures
        (subaru_answer(m, data_id, now, votable).0 is NeedVotable) <==> (votable is None && !(
        m.contains_key(data_id) && m[data_id].has_votable)),
{
}

/// After a page is served, its dataset is kept with its VOTable read and its
/// FITS file handled, stamped with the time of the request.
pub proof fn lemma_page_leaves_dataset_complete(
    m: Map<Seq<char>, DatasetView>,
    data_id: Seq<char>,
    now: u64,
    votable: Option<Seq<XmlItemView>>,
)
    ensures
        subaru_answer(m, data_id, now, votable).0 is Page ==> {
            let d = subaru_answer(m, data_id, now, votable).1[data_id];
            &&& subaru_answer(m, data_id, now, votable).1.contains_key(data_id)
            &&& d.has_votable
            &&& d.has_fits
            &&& d.timestamp == now
        },
{
    let base = with_entry(m, data_id, now);
    let d0 = DatasetView { timestamp: now, ..base[data_id] };
    if let Some(evs) = votable {
        lemma_votable_keeps_identity(d0, evs);
    }
}

/// Once a dataset's page has been served, every later request for it is
/// answered from the cache: the same page, without asking for the VOTable
/// and without naming the FITS file again.
pub proof fn lemma_page_served_from_cache(
    m: Map<Seq<char>, DatasetView>,
    data_id: Seq<char>,
    t1: u64,
    v1: Option<Seq<XmlItemView>>,
    t2: u64,
    v2: Option<Seq<XmlItemView>>,
)
    ensures
        ({
            let first = subaru_answer(m, data_id, t1, v1);
            let second = subaru_answer(first.1, data_id, t2, v2);
            first.0 matches OutcomeView::Page { html, .. } ==> second.0 == OutcomeView::Page {
                html,
                fits_filename: None,
            }
        }),
{
    lemma_page_leaves_dataset_complete(m, data_id, t1, v1);
}

proof fn lemma_map_keyed_by_id(s: Seq<DatasetView>, k: Seq<char>)
    requires
        dataset_map(s).contains_key(k),
    ensures
        dataset_map(s)[k].data_id == k,
    decreases s.len(),
{
    if s.last().data_id != k {
        lemma_map_keyed_by_id(s.drop_last(), k);
    }
}

impl DatasetCache {
    /// Each dataset is filed under its own data id.
    pub proof fn lemma_filed_by_id(&self, k: Seq<char>)
        requires
            self@.contains_key(k),
        ensures
            self@[k].data_id == k,
    {
        lemma_map_keyed_by_id(self.datasets(), k);
    }
}

/// The dataset filed under `k` has id `k`, its VOTable read and its FITS file handled.
pub open spec fn is_served(m: Map<Seq<char>, DatasetView>, k: Seq<char>) -> bool {
    &&& m[k].data_id == k
    &&& m[k].has_votable
    &&& m[k].has_fits
}

/// Every dataset held has been served.
pub open spec fn all_served(m: Map<Seq<char>, DatasetView>) -> bool {
    forall|k: Seq<char>| #[trigger] m.contains_key(k) ==> is_served(m, k)
}

/// Every dataset held is filed under its own id.
pub open spec fn filed_by_id(m: Map<Seq<char>, DatasetView>) -> bool {
    forall|k: Seq<char>| #[trigger] m.contains_key(k) ==> m[k].data_id == k
}

/// A page request as the service makes it: first without the VOTable and,
/// when that is asked for, again with the events `evs` of the VOTable.
pub open spec fn page_request(
    m: Map<Seq<char>, DatasetView>,
    data_id: Seq<char>,
    now: u64,
    evs: Seq<XmlItemView>,
) -> (OutcomeView, Map<Seq<char>, DatasetView>) {
    let first = subaru_answer(m, data_id, now, None);
    if first.0 is NeedVotable {
        subaru_answer(first.1, data_id, now, Some(evs))
    } else {
        first
    }
}

/// The datasets after the page requests `reqs` (id, time, VOTable events),
/// in order, each answered with its page; `None` once one is not.
pub open spec fn serve_requests(
    m: Map<Seq<char>, DatasetView>,
    reqs: Seq<(Seq<char>, u64, Seq<XmlItemView>)>,
) -> Option<Map<Seq<char>, DatasetView>>
    decreases reqs.len(),
{
    if reqs.len() == 0 {
        Some(m)
    } else {
        match serve_requests(m, reqs.drop_last()) {
            Some(m1) => {
                let r = page_request(m1, reqs.last().0, reqs.last().1, reqs.last().2);
                if r.0 is Page {
                    Some(r.1)
                } else {
                    None
                }
            },
            None => None,
        }
    }
}

/// There are datasets, and each id they hold is held in `m` too.
pub open spec fn held_within(d: Option<Map<Seq<char>, DatasetView>>, m: Map<Seq<char>, DatasetView>) -> bool {
    match d {
        Some(mi) => mi.dom().subset_of(m.dom()),
        None => false,
    }
}

/// One answer keeps every dataset filed under its own id and every other
/// dataset as served as it was, drops none, and holds the requested one;
/// a page answer leaves every dataset served.
pub proof fn lemma_answer_keeps_cache_served(
    m: Map<Seq<char>, DatasetView>,
    data_id: Seq<char>,
    now: u64,
    votable: Option<Seq<XmlItemView>>,
)
    requires
        filed_by_id(m),
        forall|k: Seq<char>| #[trigger] m.contains_key(k) && k != data_id ==> is_served(m, k),
    ensures
        ({
            let r = subaru_answer(m, data_id, now, votable);
            &&& filed_by_id(r.1)
            &&& forall|k: Seq<char>| #[trigger] r.1.contains_key(k) && k != data_id ==> is_served(r.1, k)
            &&& m.dom().subset_of(r.1.dom())
            &&& r.1.contains_key(data_id)
            &&& r.0 is Page ==> all_served(r.1)
        }),
{
    let base = with_entry(m, data_id, now);
    lemma_dataset_answer_keeps_id(base[data_id], data_id, now, votable);
    lemma_page_leaves_dataset_complete(m, data_id, now, votable);
    let r = subaru_answer(m, data_id, now, votable);
    assert forall|k: Seq<char>| #[trigger] r.1.contains_key(k) implies r.1[k].data_id == k by {
        if k != data_id {
            assert(m.contains_key(k));
        }
    }
    assert forall|k: Seq<char>| #[trigger] r.1.contains_key(k) && k != data_id implies is_served(r.1, k) by {
        assert(m.contains_key(k));
    }
    assert(m.dom().subset_of(r.1.dom()));
}

/// A page request on served datasets keeps them all, holds the requested
/// one, and, answered with its page, leaves every dataset served.
pub proof fn lemma_page_request_keeps_cache_served(
    m: Map<Seq<char>, DatasetView>,
    data_id: Seq<char>,
    now: u64,
    evs: Seq<XmlItemView>,
)
    requires
        all_served(m),
    ensures
        ({
            let r = page_request(m, data_id, now, evs);
            &&& m.dom().subset_of(r.1.dom())
            &&& r.1.contains_key(data_id)
            &&& r.0 is Page ==> all_served(r.1)
        }),
{
    let first = subaru_answer(m, data_id, now, None);
    lemma_answer_keeps_cache_served(m, data_id, now, None);
    if first.0 is NeedVotable {
        lemma_answer_keeps_cache_served(first.1, data_id, now, Some(evs));
    }
}

/// From no datasets, after any page requests that were all answered with
/// their pages, every dataset held is filed under its own id with its
/// VOTable read and its FITS file handled, every requested id is held, and
/// no dataset was ever dropped.
pub proof fn lemma_served_requests_leave_cache_served(
    reqs: Seq<(Seq<char>, u64, Seq<XmlItemView>)>,
    m: Map<Seq<char>, DatasetView>,
)
    requires
        serve_requests(Map::empty(), reqs) == Some(m),
    ensures
        all_served(m),
        forall|i: int| 0 <= i < reqs.len() ==> m.contains_key(#[trigger] reqs[i].0),
        forall|i: int|
            0 <= i <= reqs.len() ==> held_within(
                #[trigger] serve_requests(Map::empty(), reqs.take(i)),
                m,
            ),
    decreases reqs.len(),
{
    if reqs.len() == 0 {
        assert(reqs.take(0) =~= reqs);
    } else {
        let pre = reqs.drop_last();
        let m1 = serve_requests(Map::empty(), pre).unwrap();
        lemma_served_requests_leave_cache_served(pre, m1);
        let last = reqs.last();
        lemma_page_request_keeps_cache_served(m1, last.0, last.1, last.2);
        assert forall|i: int| 0 <= i < reqs.len() implies m.contains_key(#[trigger] reqs[i].0) by {
            if i < pre.len() {
                assert(pre[i] == reqs[i]);
                assert(m1.contains_key(pre[i].0));
            }
        }
        assert forall|i: int| 0 <= i <= reqs.len() implies held_within(
            #[trigger] serve_requests(Map::empty(), reqs.take(i)),
            m,
        ) by {
            if i < reqs.len() {
                assert(reqs.take(i) =~= pre.take(i));
                assert(held_within(serve_requests(Map::empty(), pre.take(i)), m1));
            } else {
                assert(reqs.take(i) =~= reqs);
            }
        }
    }
}

/// The datasets after the requests `reqs` (id, time, VOTable events where
/// given), answered in order, whatever each answer was.
pub open spec fn after_answers(
    m: Map<Seq<char>, DatasetView>,
    reqs: Seq<(Seq<char>, u64, Option<Seq<XmlItemView>>)>,
) -> Map<Seq<char>, DatasetView>
    decreases reqs.len(),
{
    if reqs.len() == 0 {
        m
    } else {
        subaru_answer(after_answers(m, reqs.drop_last()), reqs.last().0, reqs.last().1, reqs.last().2).1
    }
}

/// The dataset of `data_id` is held with its VOTable read and its FITS file
/// handled, and its page is `html`.
pub open spec fn serves_page(m: Map<Seq<char>, DatasetView>, data_id: Seq<char>, html: Seq<char>) -> bool {
    &&& m.contains_key(data_id)
    &&& m[data_id].has_votable
    &&& m[data_id].has_fits
    &&& page_html(data_id, m[data_id]) == html
}

/// A dataset that serves its page keeps serving it through any answer; a
/// request for it is answered with that page, without asking for the
/// VOTable or naming the FITS file, and changes only its time stamp.
pub proof fn lemma_served_page_kept(
    m: Map<Seq<char>, DatasetView>,
    data_id: Seq<char>,
    html: Seq<char>,
    requested: Seq<char>,
    now: u64,
    votable: Option<Seq<XmlItemView>>,
)
    requires
        serves_page(m, data_id, html),
    ensures
        serves_page(subaru_answer(m, requested, now, votable).1, data_id, html),
        requested == data_id ==> subaru_answer(m, requested, now, votable).0 == (OutcomeView::Page {
            html,
            fits_filename: None,
        }),
        requested == data_id ==> subaru_answer(m, requested, now, votable).1 == m.insert(
            data_id,
            (DatasetView { timestamp: now, ..m[data_id] }),
        ),
{
    if requested != data_id {
        lemma_other_datasets_untouched(m, requested, now, votable, data_id);
    } else {
        let d0 = DatasetView { timestamp: now, ..m[data_id] };
        assert(DatasetView { has_fits: true, ..d0 } == d0);
    }
}

proof fn lemma_served_page_kept_through(
    m: Map<Seq<char>, DatasetView>,
    data_id: Seq<char>,
    html: Seq<char>,
    reqs: Seq<(Seq<char>, u64, Option<Seq<XmlItemView>>)>,
)
    requires
        serves_page(m, data_id, html),
    ensures
        serves_page(after_answers(m, reqs), data_id, html),
    decreases reqs.len(),
{
    if reqs.len() > 0 {
        lemma_served_page_kept_through(m, data_id, html, reqs.drop_last());
        lemma_served_page_kept(
            after_answers(m, reqs.drop_last()),
            data_id,
            html,
            reqs.last().0,
            reqs.last().1,
            reqs.last().2,
        );
    }
}

/// Once a dataset's page has been served, a request for it after any other
/// requests (for it or for other datasets) is answered from the cache with
/// the same page, without asking for the VOTable and without naming the
/// FITS file again, and changes only the dataset's time stamp.
pub proof fn lemma_page_served_from_cache_ever_after(
    m: Map<Seq<char>, DatasetView>,
    data_id: Seq<char>,
    t1: u64,
    v1: Option<Seq<XmlItemView>>,
    reqs: Seq<(Seq<char>, u64, Option<Seq<XmlItemView>>)>,
    t2: u64,
    v2: Option<Seq<XmlItemView>>,
)
    ensures
        ({
            let first = subaru_answer(m, data_id, t1, v1);
            let before = after_answers(first.1, reqs);
            let again = subaru_answer(before, data_id, t2, v2);
            first.0 matches OutcomeView::Page { html, .. } ==> {
                &&& again.0 == OutcomeView::Page { html, fits_filename: None }
                &&& again.1 == before.insert(data_id, DatasetView { timestamp: t2, ..before[data_id] })
            }
        }),
{
    let first = subaru_answer(m, data_id, t1, v1);
    if let OutcomeView::Page { html, .. } = first.0 {
        lemma_page_leaves_dataset_complete(m, data_id, t1, v1);
        lemma_served_page_kept_through(first.1, data_id, html, reqs);
        lemma_served_page_kept(after_answers(first.1, reqs), data_id, html, data_id, t2, v2);
    }
}

/// A request that brings the VOTable of a dataset that has none reads it:
/// where no column position leaves `i32` it is answered with a page, the
/// dataset stored is the one read from the VOTable's events (stamped with
/// the request's time, its FITS file then handled), and the page shows
/// that dataset; otherwise it is refused and only the time stamp changes.
pub proof fn lemma_brought_votable_is_read(
    m: Map<Seq<char>, DatasetView>,
    data_id: Seq<char>,
    now: u64,
    evs: Seq<XmlItemView>,
)
    requires
        !(m.contains_key(data_id) && m[data_id].has_votable),
    ensures
        ({
            let r = subaru_answer(m, data_id, now, Some(evs));
            let stamped = DatasetView { timestamp: now, ..with_entry(m, data_id, now)[data_id] };
            let read = with_votable(stamped, evs);
            &&& positions_fit(stamped.current_pos as int, evs) ==> {
                &&& r.0 matches OutcomeView::Page { html, .. } && html == page_html(data_id, read)
                &&& r.1[data_id] == (DatasetView { has_fits: true, ..read })
            }
            &&& !positions_fit(stamped.current_pos as int, evs) ==> {
                &&& r.0 is VotableRejected
                &&& r.1[data_id] == stamped
            }
        }),
{
    let stamped = DatasetView { timestamp: now, ..with_entry(m, data_id, now)[data_id] };
    lemma_votable_keeps_identity(stamped, evs);
}

} // verus!
