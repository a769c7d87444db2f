//! The service's answers: request checking, file names, the quick-look page.

use vstd::prelude::*;

use crate::dataset::{DatasetView, SubaruDataset};
use crate::text::{decimal_string, push_decimal};

verus! {

/// The version of the server, shown on the page.
pub const VERSION_STRING: &'static str = "SV2018-03-19.0";

/// The host of the VOTable service.
pub const VOTABLESERVER: &'static str = "jvox.vo.nao.ac.jp";

/// The directory of the cached VOTables.
pub const VOTABLECACHE: &'static str = "VOTABLECACHE";

/// The directory of the cached FITS files.
pub const FITSCACHE: &'static str = "FITSCACHE";

/// The page up to the dataset's metadata.
pub const PAGE_HEAD: &'static str = "<!DOCTYPE html>\n<html xmlns:xlink=\"http://www.w3.org/1999/xlink\">\n<head>\n<meta charset=\"utf-8\">\n<link rel=\"stylesheet\" type=\"text/css\" href=\"http://fonts.googleapis.com/css?family=Inconsolata\">\n<script src=\"https://d3js.org/d3.v4.min.js\"></script>\n<script src=\"/subaruwebql/progressbar.min.js\"></script>\n<script src=\"/subaruwebql/ra_dec_conversion.js\"></script>\n<script src=\"/subaruwebql/reconnecting-websocket.min.js\"></script>\n<script src=\"/subaruwebql/subaruwebql.js\"></script>\n<!-- Latest compiled and minified CSS --> <link rel=\"stylesheet\" href=\"https://maxcdn.bootstrapcdn.com/bootstrap/3.3.7/css/bootstrap.min.css\" integrity=\"sha384-BVYiiSIFeK1dGmJRAkycuHAHRg32OmUcww7on3RYdg4Va+PmSTsz/K68vbdEjh4u\" crossorigin=\"anonymous\">\n<!-- Optional theme --> <link rel=\"stylesheet\" href=\"https://maxcdn.bootstrapcdn.com/bootstrap/3.3.7/css/bootstrap-theme.min.css\" integrity=\"sha384-rHyoN1iRsVXV4nD0JutlnGaslCJuC7uwjduW9SVrLvRYooPp2bWYgmgJQIXwl/Sp\" crossorigin=\"anonymous\">\n<!-- jQuery (necessary for Bootstrap's JavaScript plugins) --> <script src=\"https://ajax.googleapis.com/ajax/libs/jquery/1.12.4/jquery.min.js\"></script>\n<!-- Latest compiled and minified JavaScript --> <script src=\"https://maxcdn.bootstrapcdn.com/bootstrap/3.3.7/js/bootstrap.min.js\" integrity=\"sha384-Tc5IQib027qvyjSMfHjOMaLkfuWVxZxUPnCJA7l2mCWNIpG9mGCD8wGNIcPD7Txa\" crossorigin=\"anonymous\"></script>\n<link rel=\"stylesheet\" href=\"/subaruwebql/subaruwebql.css\"/>\n<script src=\"/subaruwebql/lz4.min.js\" charset=\"utf-8\"></script>\n<title>SubaruWebQL</title></head><body>\n";

/// The page after the dataset's metadata.
pub const PAGE_TAIL: &'static str = "<script>\nconst golden_ratio = 1.6180339887;\nvar firstTime = true ;\nmainRenderer();\nwindow.onresize = resize;\nfunction resize(){mainRenderer();}\n  </script></body></html>";

pub const URL_SCHEME: &'static str = "http://";

pub const URL_QUERY: &'static str = ":8060/skynode/do/tap/spcam/sync?REQUEST=queryData&QUERY=SELECT%20*%20FROM%20image_nocut%20WHERE%20data_id%20='";

pub const QUOTE: &'static str = "'";

pub const SLASH: &'static str = "/";

pub const XML_SUFFIX: &'static str = ".xml";

pub const XML_TMP_SUFFIX: &'static str = ".xml.tmp";

pub const FITS_SUFFIX: &'static str = ".fits";

pub const META_DATA_ID: &'static str = "<div id='votable' style='width: 0; height: 0;' data-dataId='";

pub const META_PROCESS_ID: &'static str = "' data-processId='";

pub const META_TITLE: &'static str = "' data-title='";

pub const META_DATE: &'static str = "' data-date='";

pub const META_OBJECTS: &'static str = "' data-objects='";

pub const META_BAND_NAME: &'static str = "' data-band-name='";

pub const META_BAND_REF: &'static str = "' data-band-ref='";

pub const META_BAND_HI: &'static str = "' data-band-hi='";

pub const META_BAND_LO: &'static str = "' data-band-lo='";

pub const META_BAND_UNIT: &'static str = "' data-band-unit='";

pub const META_RA: &'static str = "' data-ra='";

pub const META_DEC: &'static str = "' data-dec='";

pub const META_FILESIZE: &'static str = "' data-filesize='";

pub const META_VERSION: &'static str = "' data-server-version='";

pub const META_END: &'static str = "'></div>\n";

/// The VOTable query that the service makes for `data_id` when the request names none:
/// the Suprime-Cam image table.
pub open spec fn default_votable_url(data_id: Seq<char>) -> Seq<char> {
    URL_SCHEME@ + VOTABLESERVER@ + URL_QUERY@ + data_id + QUOTE@
}

/// Where the VOTable of `data_id` is cached.
pub open spec fn votable_file(data_id: Seq<char>) -> Seq<char> {
    VOTABLECACHE@ + SLASH@ + data_id + XML_SUFFIX@
}

/// Where the VOTable of `data_id` is downloaded before it is moved to its place.
pub open spec fn votable_tmp_file(data_id: Seq<char>) -> Seq<char> {
    VOTABLECACHE@ + SLASH@ + data_id + XML_TMP_SUFFIX@
}

/// Where the FITS file of `data_id` is cached.
pub open spec fn fits_file(data_id: Seq<char>) -> Seq<char> {
    FITSCACHE@ + SLASH@ + data_id + FITS_SUFFIX@
}

/// The quick-look page of dataset `d`, requested as `data_id`.
pub open spec fn page_html(data_id: Seq<char>, d: DatasetView) -> Seq<char> {
    PAGE_HEAD@ + META_DATA_ID@ + data_id + META_PROCESS_ID@ + d.process_id + META_TITLE@ + d.title
        + META_DATE@ + d.date_obs + META_OBJECTS@ + d.objects + META_BAND_NAME@ + d.band_name
        + META_BAND_REF@ + d.band_ref + META_BAND_HI@ + d.band_hi + META_BAND_LO@ + d.band_lo
        + META_BAND_UNIT@ + d.band_unit + META_RA@ + d.ra + META_DEC@ + d.dec + META_FILESIZE@
        + decimal_string(d.file_size as nat) + META_VERSION@ + VERSION_STRING@ + META_END@
        + PAGE_TAIL@
}

/// The VOTable query that the service makes for `data_id` when the request names none.
pub fn default_votable(data_id: &str) -> (r: String)
    ensures
        r@ == default_votable_url(data_id@),
{
    let mut r = String::from_str(URL_SCHEME);
    r.append(VOTABLESERVER);
    r.append(URL_QUERY);
    r.append(data_id);
    r.append(QUOTE);
    r
}

/// `dir/name` followed by `suffix`.
fn cache_path(dir: &str, name: &str, suffix: &str) -> (r: String)
    ensures
        r@ == dir@ + SLASH@ + name@ + suffix@,
{
    let mut r = String::from_str(dir);
    r.append(SLASH);
    r.append(name);
    r.append(suffix);
    r
}

/// Where the VOTable of `data_id` is cached.
pub fn votable_filename(data_id: &str) -> (r: String)
    ensures
        r@ == votable_file(data_id@),
{
    cache_path(VOTABLECACHE, data_id, XML_SUFFIX)
}

/// Where the VOTable of `data_id` is downloaded before it is moved to its place.
pub fn votable_tmp_filename(data_id: &str) -> (r: String)
    ensures
        r@ == votable_tmp_file(data_id@),
{
    cache_path(VOTABLECACHE, data_id, XML_TMP_SUFFIX)
}

/// Where the FITS file of `data_id` is cached.
pub fn fits_filename(data_id: &str) -> (r: String)
    ensures
        r@ == fits_file(data_id@),
{
    cache_path(FITSCACHE, data_id, FITS_SUFFIX)
}

/// Marks the dataset's FITS file as handled; returns the file's cache path.
pub fn subaru_fits(subaru: &mut SubaruDataset) -> (filename: String)
    ensures
        filename@ == fits_file(old(subaru)@.data_id),
        final(subaru)@ == (DatasetView { has_fits: true, ..old(subaru)@ }),
{
    let filename = fits_filename(subaru.data_id.as_str());
    subaru.has_fits = true;
    filename
}

/// The quick-look page of `subaru`, requested as `data_id`.
pub fn render_page(data_id: &str, subaru: &SubaruDataset) -> (html: String)
    ensures
        html@ == page_html(data_id@, subaru@),
{
    let mut html = String::from_str(PAGE_HEAD);
    html.append(META_DATA_ID);
    html.append(data_id);
    html.append(META_PROCESS_ID);
    html.append(subaru.process_id.as_str());
    html.append(META_TITLE);
    html.append(subaru.title.as_str());
    html.append(META_DATE);
    html.append(subaru.date_obs.as_str());
    html.append(META_OBJECTS);
    html.append(subaru.objects.as_str());
    html.append(META_BAND_NAME);
    html.append(subaru.band_name.as_str());
    html.append(META_BAND_REF);
    html.append(subaru.band_ref.as_str());
    html.append(META_BAND_HI);
    html.append(subaru.band_hi.as_str());
    html.append(META_BAND_LO);
    html.append(subaru.band_lo.as_str());
    html.append(META_BAND_UNIT);
    html.append(subaru.band_unit.as_str());
    html.append(META_RA);
    html.append(subaru.ra.as_str());
    html.append(META_DEC);
    html.append(subaru.dec.as_str());
    html.append(META_FILESIZE);
    push_decimal(&mut html, subaru.file_size);
    html.append(META_VERSION);
    html.append(VERSION_STRING);
    html.append(META_END);
    html.append(PAGE_TAIL);
    html
}

/// A checked request for a dataset's page.
pub struct SubaruRequest {
    pub data_id: String,
    pub votable: String,
}

/// Why a request for a page is refused.
#[derive(Clone, Copy, Debug, PartialEq, Eq, Structural)]
pub enum RequestError {
    /// The query names no `dataId`.
    DataIdNotFound,
    /// The query's `dataId` is empty.
    EmptyDataId,
}

/// The text of a refusal.
pub open spec fn request_error_text(e: RequestError) -> Seq<char> {
    match e {
        RequestError::DataIdNotFound => "SubaruWebQL request error: dataId not found!"@,
        RequestError::EmptyDataId => "SubaruWebQL request error: empty dataId found!"@,
    }
}

impl RequestError {
    /// The text of a refusal, as the service answers it.
    pub fn message(&self) -> (r: String)
        ensures
            r@ == request_error_text(*self),
    {
        match self {
            RequestError::DataIdNotFound => String::from_str(
                "SubaruWebQL request error: dataId not found!",
            ),
            RequestError::EmptyDataId => String::from_str(
                "SubaruWebQL request error: empty dataId found!",
            ),
        }
    }
}

/// Checks a page request, given the values of its query parameters `dataId`
/// and `votable` (each list as the query decoder gives it, never empty; the
/// `votable` list is looked at only for a good `dataId`):
/// the first `dataId` must be non-empty; the first `votable`, where there is
/// one, is the VOTable to read, else the default query for the dataset.
pub fn subaru_handler(data_id: Option<&Vec<String>>, votable: Option<&Vec<String>>) -> (r: Result<
    SubaruRequest,
    RequestError,
>)
    requires
        data_id matches Some(v) ==> v.len() > 0,
        data_id matches Some(v) && v.len() > 0 && v[0]@.len() > 0 ==> (votable matches Some(w)
            ==> w.len() > 0),
    ensures
        data_id is None ==> r == Err::<SubaruRequest, RequestError>(RequestError::DataIdNotFound),
        data_id matches Some(v) ==> (v[0]@.len() == 0 <==> r == Err::<SubaruRequest, RequestError>(
            RequestError::EmptyDataId,
        )),
        data_id matches Some(v) ==> (v[0]@.len() > 0 <==> r is Ok),
        r matches Ok(req) ==> {
            &&& data_id matches Some(v)
            &&& req.data_id@ == v[0]@
            &&& req.votable@ == match votable {
                Some(w) => w[0]@,
                None => default_votable_url(v[0]@),
            }
        },
{
    let id = match data_id {
        Some(v) => {
            let s = &v[0];
            if s.as_str().is_empty() {
                return Err(RequestError::EmptyDataId);
            }
            s
        },
        None => {
            return Err(RequestError::DataIdNotFound);
        },
    };
    let votable_url = match votable {
        Some(w) => w[0].clone(),
        None => default_votable(id.as_str()),
    };
    Ok(SubaruRequest { data_id: id.clone(), votable: votable_url })
}

/// The texts `parts` written one after the other.
pub open spec fn joined(parts: Seq<Seq<char>>) -> Seq<char>
    decreases parts.len(),
{
    if parts.len() == 0 {
        Seq::empty()
    } else {
        joined(parts.drop_last()) + parts.last()
    }
}

/// The total length of the texts `parts`.
pub open spec fn total_len(parts: Seq<Seq<char>>) -> nat
    decreases parts.len(),
{
    if parts.len() == 0 {
        0
    } else {
        total_len(parts.drop_last()) + parts.last().len()
    }
}

/// `text` stands in `page` from position `at` on.
pub open spec fn holds_at(page: Seq<char>, at: int, text: Seq<char>) -> bool {
    &&& 0 <= at
    &&& at + text.len() <= page.len()
    &&& page.subrange(at, at + text.len()) == text
}

/// The parts of the quick-look page, in order: the fixed head, the data id,
/// then each attribute's marker followed by the field it shows, then the
/// fixed end.
pub open spec fn page_parts(data_id: Seq<char>, d: DatasetView) -> Seq<Seq<char>> {
    seq![
        PAGE_HEAD@ + META_DATA_ID@,
        data_id,
        META_PROCESS_ID@,
        d.process_id,
        META_TITLE@,
        d.title,
        META_DATE@,
        d.date_obs,
        META_OBJECTS@,
        d.objects,
        META_BAND_NAME@,
        d.band_name,
        META_BAND_REF@,
        d.band_ref,
        META_BAND_HI@,
        d.band_hi,
        META_BAND_LO@,
        d.band_lo,
        META_BAND_UNIT@,
        d.band_unit,
        META_RA@,
        d.ra,
        META_DEC@,
        d.dec,
        META_FILESIZE@,
        decimal_string(d.file_size as nat),
        META_VERSION@ + VERSION_STRING@ + META_END@ + PAGE_TAIL@
    ]
}

proof fn lemma_joined_len(parts: Seq<Seq<char>>)
    ensures
        joined(parts).len() == total_len(parts),
    decreases parts.len(),
{
    if parts.len() > 0 {
        lemma_joined_len(parts.drop_last());
    }
}

proof fn lemma_joined_parts(parts: Seq<Seq<char>>, j: int)
    requires
        0 <= j < parts.len(),
    ensures
        holds_at(joined(parts), total_len(parts.take(j)) as int, parts[j]),
    decreases parts.len(),
{
    let pre = parts.drop_last();
    lemma_joined_len(pre);
    lemma_joined_len(parts);
    let whole = joined(parts);
    if j < pre.len() {
        lemma_joined_parts(pre, j);
        assert(pre.take(j) =~= parts.take(j));
        let at = total_len(parts.take(j)) as int;
        assert(whole.subrange(at, at + parts[j].len()) =~= joined(pre).subrange(at, at + pre[j].len()));
    } else {
        assert(parts.take(j) =~= pre);
        assert(whole.subrange(joined(pre).len() as int, whole.len() as int) =~= parts.last());
    }
}

proof fn lemma_joined_push(parts: Seq<Seq<char>>, x: Seq<char>)
    ensures
        joined(parts.push(x)) == joined(parts) + x,
{
    assert(parts.push(x).drop_last() =~= parts);
}

#[verifier::rlimit(60)]
proof fn lemma_page_is_joined(data_id: Seq<char>, d: DatasetView)
    ensures
        joined(page_parts(data_id, d)) == page_html(data_id, d),
{
    let e = Seq::<Seq<char>>::empty();
    let p1 = e.push(PAGE_HEAD@ + META_DATA_ID@);
    lemma_joined_push(e, PAGE_HEAD@ + META_DATA_ID@);
    assert(joined(p1) =~= PAGE_HEAD@ + META_DATA_ID@);
    let p2 = p1.push(data_id);
    lemma_joined_push(p1, data_id);
    let p3 = p2.push(META_PROCESS_ID@);
    lemma_joined_push(p2, META_PROCESS_ID@);
    let p4 = p3.push(d.process_id);
    lemma_joined_push(p3, d.process_id);
    let p5 = p4.push(META_TITLE@);
    lemma_joined_push(p4, META_TITLE@);
    let p6 = p5.push(d.title);
    lemma_joined_push(p5, d.title);
    let p7 = p6.push(META_DATE@);
    lemma_joined_push(p6, META_DATE@);
    let p8 = p7.push(d.date_obs);
    lemma_joined_push(p7, d.date_obs);
    let p9 = p8.push(META_OBJECTS@);
    lemma_joined_push(p8, META_OBJECTS@);
    let p10 = p9.push(d.objects);
    lemma_joined_push(p9, d.objects);
    let p11 = p10.push(META_BAND_NAME@);
    lemma_joined_push(p10, META_BAND_NAME@);
    let p12 = p11.push(d.band_name);
    lemma_joined_push(p11, d.band_name);
    let p13 = p12.push(META_BAND_REF@);
    lemma_joined_push(p12, META_BAND_REF@);
    let p14 = p13.push(d.band_ref);
    lemma_joined_push(p13, d.band_ref);
    let p15 = p14.push(META_BAND_HI@);
    lemma_joined_push(p14, META_BAND_HI@);
    let p16 = p15.push(d.band_hi);
    lemma_joined_push(p15, d.band_hi);
    let p17 = p16.push(META_BAND_LO@);
    lemma_joined_push(p16, META_BAND_LO@);
    let p18 = p17.push(d.band_lo);
    lemma_joined_push(p17, d.band_lo);
    let p19 = p18.push(META_BAND_UNIT@);
    lemma_joined_push(p18, META_BAND_UNIT@);
    let p20 = p19.push(d.band_unit);
    lemma_joined_push(p19, d.band_unit);
    let p21 = p20.push(META_RA@);
    lemma_joined_push(p20, META_RA@);
    let p22 = p21.push(d.ra);
    lemma_joined_push(p21, d.ra);
    let p23 = p22.push(META_DEC@);
    lemma_joined_push(p22, META_DEC@);
    let p24 = p23.push(d.dec);
    lemma_joined_push(p23, d.dec);
    let p25 = p24.push(META_FILESIZE@);
    lemma_joined_push(p24, META_FILESIZE@);
    let p26 = p25.push(decimal_string(d.file_size as nat));
    lemma_joined_push(p25, decimal_string(d.file_size as nat));
    let tail = META_VERSION@ + VERSION_STRING@ + META_END@ + PAGE_TAIL@;
    let p27 = p26.push(tail);
    lemma_joined_push(p26, tail);
    assert(p27 =~= page_parts(data_id, d));
    assert(joined(p27) =~= page_html(data_id, d));
}

/// The page shows each field of the dataset whole and verbatim in its
/// place: after the fixed head, the data id, then each attribute's marker
/// immediately followed by exactly that field (the text between
/// `' data-title='` and `' data-date='` is the title, and so on), then the
/// fixed end; nothing else is on the page.
pub proof fn lemma_page_fields_verbatim(data_id: Seq<char>, d: DatasetView)
    ensures
        page_html(data_id, d).len() == total_len(page_parts(data_id, d)),
        forall|j: int|
            0 <= j < page_parts(data_id, d).len() ==> holds_at(
                page_html(data_id, d),
                total_len(page_parts(data_id, d).take(j)) as int,
                #[trigger] page_parts(data_id, d)[j],
            ),
{
    let parts = page_parts(data_id, d);
    lemma_page_is_joined(data_id, d);
    lemma_joined_len(parts);
    assert forall|j: int| 0 <= j < parts.len() implies holds_at(
        page_html(data_id, d),
        total_len(parts.take(j)) as int,
        #[trigger] parts[j],
    ) by {
        lemma_joined_parts(parts, j);
    }
}

/// The default VOTable query names the requested dataset whole: the fixed
/// query text, then exactly the data id, then the closing quote; so the id
/// can be read back from it, and different ids give different queries.
pub proof fn lemma_default_votable_names_data_id(data_id: Seq<char>, other: Seq<char>)
    ensures
        ({
            let url = default_votable_url(data_id);
            let fixed = URL_SCHEME@ + VOTABLESERVER@ + URL_QUERY@;
            &&& url.len() == fixed.len() + data_id.len() + QUOTE@.len()
            &&& url.subrange(0, fixed.len() as int) == fixed
            &&& url.subrange(fixed.len() as int, (fixed.len() + data_id.len()) as int) == data_id
            &&& url.subrange((fixed.len() + data_id.len()) as int, url.len() as int) == QUOTE@
        }),
        data_id != other ==> default_votable_url(data_id) != default_votable_url(other),
{
    let fixed = URL_SCHEME@ + VOTABLESERVER@ + URL_QUERY@;
    let url = default_votable_url(data_id);
    assert(url =~= fixed + data_id + QUOTE@);
    assert(url.subrange(0, fixed.len() as int) =~= fixed);
    assert(url.subrange(fixed.len() as int, (fixed.len() + data_id.len()) as int) =~= data_id);
    assert(url.subrange((fixed.len() + data_id.len()) as int, url.len() as int) =~= QUOTE@);
    let url2 = default_votable_url(other);
    if data_id != other && url == url2 {
        assert(url2 =~= fixed + other + QUOTE@);
        assert(url2.subrange(fixed.len() as int, (fixed.len() + other.len()) as int) =~= other);
        assert(data_id.len() == other.len());
        assert(false);
    }
}

} // verus!
