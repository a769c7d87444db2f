use subaru_web_ql::cache::{execute_subaru, DatasetCache, SubaruOutcome};
use subaru_web_ql::dataset::SubaruDataset;
use subaru_web_ql::page::{
    default_votable, fits_filename, render_page, subaru_fits, subaru_handler, votable_filename,
    votable_tmp_filename, RequestError,
};
use subaru_web_ql::votable::{
    apply_votable_events, positions_stay_in_range, subaru_votable, XmlAttribute, XmlItem,
};

const VOTABLE: &str = r#"<?xml version="1.0" encoding="UTF-8"?>
<VOTABLE version="1.2">
<RESOURCE type="results">
<TABLE>
<FIELD ID="C1" name="DATA_ID" datatype="char"/>
<FIELD ID="C2" name=" PROC_ID " datatype="char"/>
<FIELD ID="C3" name="TITLE" datatype="char"/>
<FIELD ID="C4" name="DATE_OBS" datatype="char"/>
<FIELD ID="C5" name="OBJECTS" datatype="char"/>
<FIELD ID="C6" name="BAND_NAME" datatype="char"/>
<FIELD ID="C7" name="BAND_REFVAL" datatype="double"/>
<FIELD ID="C8" name="BAND_HILIMIT" datatype="double"/>
<FIELD ID="C9" name="BAND_LOLIMIT" datatype="double"/>
<FIELD ID="C10" name="BAND_UNIT" datatype="char"/>
<FIELD ID="C11" name="CENTER_RA" datatype="double"/>
<FIELD ID="C12" name="CENTER_DEC" datatype="double"/>
<FIELD ID="C13" name="FILE_SIZE" datatype="long"/>
<FIELD ID="C14" name="PATH" datatype="char"/>
<FIELD ID="C15" name="ACCESS_REF" datatype="char"/>
<DATA><TABLEDATA><TR><TD>SUPA01234567</TD><TD>proc-1</TD><TD>M31 field</TD><TD>2010-10-26</TD><TD>M31</TD><TD>W-C-RC</TD><TD>6500</TD><TD>7200</TD><TD>5800</TD><TD>A</TD><TD>10.68</TD><TD>41.27</TD><TD>16803840</TD><TD>/data/SUPA01234567.fits</TD><TD>http://example/SUPA01234567.fits</TD></TR></TABLEDATA></DATA>
</TABLE>
</RESOURCE>
</VOTABLE>
"#;

fn attr(name: &str, value: &str) -> XmlAttribute {
    XmlAttribute { name: name.to_string(), value: value.to_string() }
}

fn start(name: &str, attributes: Vec<XmlAttribute>) -> XmlItem {
    XmlItem::StartElement { name: name.to_string(), attributes }
}

#[test]
fn votable_fills_the_dataset() {
    let mut d = SubaruDataset::new(&"SUPA01234567".to_string(), 5);
    assert!(subaru_votable(&mut d, VOTABLE.as_bytes()));
    assert!(d.has_votable);
    assert!(!d.has_fits);
    assert_eq!(d.data_id, "SUPA01234567");
    assert_eq!(d.process_id, "proc-1");
    assert_eq!(d.title, "M31 field");
    assert_eq!(d.date_obs, "2010-10-26");
    assert_eq!(d.objects, "M31");
    assert_eq!(d.band_name, "W-C-RC");
    assert_eq!(d.band_ref, "6500");
    assert_eq!(d.band_hi, "7200");
    assert_eq!(d.band_lo, "5800");
    assert_eq!(d.band_unit, "&#8491;");
    assert_eq!(d.ra, "10.68");
    assert_eq!(d.dec, "41.27");
    assert_eq!(d.file_size, 16803840);
    assert_eq!(d.file_path, "/data/SUPA01234567.fits");
    assert_eq!(d.file_url, "http://example/SUPA01234567.fits");
    assert_eq!(d.data_id_pos, 1);
    assert_eq!(d.file_url_pos, 15);
    assert_eq!(d.current_pos, 15);
    assert_eq!(d.timestamp, 5);
}

#[test]
fn text_before_any_field_goes_to_every_column() {
    let xml = "<VOTABLE><DESCRIPTION>um</DESCRIPTION></VOTABLE>";
    let mut d = SubaruDataset::new(&"X".to_string(), 0);
    assert!(subaru_votable(&mut d, xml.as_bytes()));
    assert_eq!(d.title, "um");
    assert_eq!(d.ra, "um");
    assert_eq!(d.band_unit, "&#181;m");
    assert_eq!(d.file_size, 0);
    assert_eq!(d.data_id, "X");
}

#[test]
fn malformed_votable_is_read_up_to_the_error() {
    let xml = "<VOTABLE><FIELD ID=\"C1\" name=\"TITLE\"/><TR><TD>first</TD><TD>second</TD></TR><broken";
    let mut d = SubaruDataset::new(&"Y".to_string(), 0);
    assert!(subaru_votable(&mut d, xml.as_bytes()));
    assert!(d.has_votable);
    assert_eq!(d.title, "first");
    assert_eq!(d.title_pos, 1);
    let mut e = SubaruDataset::new(&"Z".to_string(), 0);
    assert!(subaru_votable(&mut e, b"not xml at all"));
    assert!(e.has_votable);
    assert_eq!(e.title, "");
}

#[test]
fn events_stop_at_the_first_error() {
    let events = vec![
        start("FIELD", vec![attr("ID", "C3"), attr("name", "OBJECTS")]),
        start("TD", vec![]),
        start("TD", vec![]),
        start("TD", vec![]),
        XmlItem::Characters("NGC 253".to_string()),
        XmlItem::Error,
        XmlItem::Characters("after".to_string()),
    ];
    let mut d = SubaruDataset::new(&"Q".to_string(), 0);
    assert!(positions_stay_in_range(d.current_pos, &events));
    apply_votable_events(&mut d, &events);
    assert_eq!(d.objects, "NGC 253");
    assert_eq!(d.objects_pos, 3);
    assert_eq!(d.current_pos, 3);
    assert!(d.has_votable);
}

#[test]
fn id_attribute_without_number_keeps_the_position() {
    let events = vec![
        start("FIELD", vec![attr("ID", "C4"), attr("name", "TITLE")]),
        start("FIELD", vec![attr("ID", "X9"), attr(" name ", "DATE_OBS")]),
        start("FIELD", vec![attr("name", "OBJECTS"), attr("ID", "C8")]),
    ];
    let mut d = SubaruDataset::new(&"Q".to_string(), 0);
    apply_votable_events(&mut d, &events);
    assert_eq!(d.title_pos, 4);
    assert_eq!(d.date_obs_pos, 0);
    assert_eq!(d.objects_pos, 0);
    assert_eq!(d.current_pos, 0);
}

#[test]
fn overflowing_column_position_is_refused() {
    let events = vec![start("TD", vec![])];
    assert!(!positions_stay_in_range(i32::MAX, &events));
    assert!(positions_stay_in_range(i32::MAX - 1, &events));
    let events = vec![start("FIELD", vec![]), start("TD", vec![])];
    assert!(positions_stay_in_range(i32::MAX, &events));
    let events = vec![XmlItem::Error, start("TD", vec![])];
    assert!(positions_stay_in_range(i32::MAX, &events));
}

#[test]
fn request_checks() {
    let ids = vec!["SUPA1".to_string(), "SUPA2".to_string()];
    let empty = vec!["".to_string()];
    let votables = vec!["http://v".to_string()];
    assert!(matches!(subaru_handler(None, None), Err(RequestError::DataIdNotFound)));
    assert!(matches!(subaru_handler(Some(&empty), Some(&votables)), Err(RequestError::EmptyDataId)));
    let req = subaru_handler(Some(&ids), Some(&votables)).ok().unwrap();
    assert_eq!(req.data_id, "SUPA1");
    assert_eq!(req.votable, "http://v");
    let req = subaru_handler(Some(&ids), None).ok().unwrap();
    assert_eq!(
        req.votable,
        "http://jvox.vo.nao.ac.jp:8060/skynode/do/tap/spcam/sync?REQUEST=queryData&QUERY=SELECT%20*%20FROM%20image_nocut%20WHERE%20data_id%20='SUPA1'"
    );
    assert_eq!(default_votable("x"), format!("http://{}:8060/skynode/do/tap/spcam/sync?REQUEST=queryData&QUERY=SELECT%20*%20FROM%20image_nocut%20WHERE%20data_id%20='{}'", "jvox.vo.nao.ac.jp", "x"));
    assert_eq!(RequestError::EmptyDataId.message(), "SubaruWebQL request error: empty dataId found!");
    assert_eq!(RequestError::DataIdNotFound.message(), "SubaruWebQL request error: dataId not found!");
}

#[test]
fn cache_paths() {
    assert_eq!(votable_filename("SUPA1"), "VOTABLECACHE/SUPA1.xml");
    assert_eq!(votable_tmp_filename("SUPA1"), "VOTABLECACHE/SUPA1.xml.tmp");
    assert_eq!(fits_filename("SUPA1"), "FITSCACHE/SUPA1.fits");
    let mut d = SubaruDataset::new(&"SUPA9".to_string(), 0);
    assert_eq!(subaru_fits(&mut d), "FITSCACHE/SUPA9.fits");
    assert!(d.has_fits);
}

fn expected_page(data_id: &str, d: &SubaruDataset) -> String {
    let mut html = String::from("<!DOCTYPE html>\n<html xmlns:xlink=\"http://www.w3.org/1999/xlink\">\n<head>\n<meta charset=\"utf-8\">\n");
    html.push_str("<link rel=\"stylesheet\" type=\"text/css\" href=\"http://fonts.googleapis.com/css?family=Inconsolata\">\n");
    html.push_str("<script src=\"https://d3js.org/d3.v4.min.js\"></script>\n");
    html.push_str("<script src=\"/subaruwebql/progressbar.min.js\"></script>\n");
    html.push_str("<script src=\"/subaruwebql/ra_dec_conversion.js\"></script>\n");
    html.push_str("<script src=\"/subaruwebql/reconnecting-websocket.min.js\"></script>\n");
    html.push_str("<script src=\"/subaruwebql/subaruwebql.js\"></script>\n");
    html.push_str("<!-- Latest compiled and minified CSS --> <link rel=\"stylesheet\" href=\"https://maxcdn.bootstrapcdn.com/bootstrap/3.3.7/css/bootstrap.min.css\" integrity=\"sha384-BVYiiSIFeK1dGmJRAkycuHAHRg32OmUcww7on3RYdg4Va+PmSTsz/K68vbdEjh4u\" crossorigin=\"anonymous\">\n");
    html.push_str("<!-- Optional theme --> <link rel=\"stylesheet\" href=\"https://maxcdn.bootstrapcdn.com/bootstrap/3.3.7/css/bootstrap-theme.min.css\" integrity=\"sha384-rHyoN1iRsVXV4nD0JutlnGaslCJuC7uwjduW9SVrLvRYooPp2bWYgmgJQIXwl/Sp\" crossorigin=\"anonymous\">\n");
    html.push_str("<!-- jQuery (necessary for Bootstrap's JavaScript plugins) --> <script src=\"https://ajax.googleapis.com/ajax/libs/jquery/1.12.4/jquery.min.js\"></script>\n");
    html.push_str("<!-- Latest compiled and minified JavaScript --> <script src=\"https://maxcdn.bootstrapcdn.com/bootstrap/3.3.7/js/bootstrap.min.js\" integrity=\"sha384-Tc5IQib027qvyjSMfHjOMaLkfuWVxZxUPnCJA7l2mCWNIpG9mGCD8wGNIcPD7Txa\" crossorigin=\"anonymous\"></script>\n");
    html.push_str("<link rel=\"stylesheet\" href=\"/subaruwebql/subaruwebql.css\"/>\n");
    html.push_str("<script src=\"/subaruwebql/lz4.min.js\" charset=\"utf-8\"></script>\n");
    html.push_str("<title>SubaruWebQL</title></head><body>\n");
    html.push_str(&format!("<div id='votable' style='width: 0; height: 0;' data-dataId='{}' data-processId='{}' data-title='{}' data-date='{}' data-objects='{}' data-band-name='{}' data-band-ref='{}' data-band-hi='{}' data-band-lo='{}' data-band-unit='{}' data-ra='{}' data-dec='{}' data-filesize='{}' data-server-version='{}'></div>\n", data_id, d.process_id, d.title, d.date_obs, d.objects, d.band_name, d.band_ref, d.band_hi, d.band_lo, d.band_unit, d.ra, d.dec, d.file_size, "SV2018-03-19.0"));
    html.push_str("<script>
const golden_ratio = 1.6180339887;
var firstTime = true ;
mainRenderer();
window.onresize = resize;
function resize(){mainRenderer();}
  </script>");
    html.push_str("</body></html>");
    html
}

#[test]
fn page_is_exact() {
    let mut d = SubaruDataset::new(&"SUPA01234567".to_string(), 5);
    assert!(subaru_votable(&mut d, VOTABLE.as_bytes()));
    assert_eq!(render_page("SUPA01234567", &d), expected_page("SUPA01234567", &d));
    let fresh = SubaruDataset::new(&"E".to_string(), 0);
    assert_eq!(render_page("E", &fresh), expected_page("E", &fresh));
}

#[test]
fn requests_are_served_from_the_cache() {
    let mut cache = DatasetCache::new();
    let id = "SUPA01234567".to_string();
    assert!(matches!(execute_subaru(&mut cache, &id, 10, None), SubaruOutcome::NeedVotable));
    assert_eq!(cache.len(), 1);
    assert!(!cache.get(&id).unwrap().has_votable);
    assert_eq!(cache.get(&id).unwrap().timestamp, 10);
    let first = match execute_subaru(&mut cache, &id, 11, Some(VOTABLE.as_bytes())) {
        SubaruOutcome::Page { html, fits_filename } => {
            assert_eq!(fits_filename, Some("FITSCACHE/SUPA01234567.fits".to_string()));
            html
        }
        _ => panic!("expected a page"),
    };
    assert_eq!(first, expected_page(&id, cache.get(&id).unwrap()));
    let d = cache.get(&id).unwrap();
    assert!(d.has_votable && d.has_fits);
    assert_eq!(d.timestamp, 11);
    match execute_subaru(&mut cache, &id, 12, None) {
        SubaruOutcome::Page { html, fits_filename } => {
            assert_eq!(html, first);
            assert_eq!(fits_filename, None);
        }
        _ => panic!("expected a page"),
    }
    assert_eq!(cache.get(&id).unwrap().timestamp, 12);
    assert_eq!(cache.len(), 1);
    let other = "SUPA7".to_string();
    assert!(matches!(execute_subaru(&mut cache, &other, 13, None), SubaruOutcome::NeedVotable));
    assert_eq!(cache.len(), 2);
    assert_eq!(cache.get(&id).unwrap().timestamp, 12);
    assert_eq!(cache.get(&other).unwrap().data_id, "SUPA7");
    assert!(cache.get("nobody").is_none());
}

fn same_except_position(a: &SubaruDataset, b: &SubaruDataset) -> bool {
    a.data_id == b.data_id && a.process_id == b.process_id && a.title == b.title
        && a.date_obs == b.date_obs && a.objects == b.objects && a.band_name == b.band_name
        && a.band_ref == b.band_ref && a.band_hi == b.band_hi && a.band_lo == b.band_lo
        && a.band_unit == b.band_unit && a.ra == b.ra && a.dec == b.dec
        && a.file_size == b.file_size && a.file_path == b.file_path && a.file_url == b.file_url
        && a.data_id_pos == b.data_id_pos && a.process_id_pos == b.process_id_pos
        && a.title_pos == b.title_pos && a.date_obs_pos == b.date_obs_pos
        && a.objects_pos == b.objects_pos && a.band_name_pos == b.band_name_pos
        && a.band_ref_pos == b.band_ref_pos && a.band_hi_pos == b.band_hi_pos
        && a.band_lo_pos == b.band_lo_pos && a.band_unit_pos == b.band_unit_pos
        && a.ra_pos == b.ra_pos && a.dec_pos == b.dec_pos && a.file_size_pos == b.file_size_pos
        && a.file_path_pos == b.file_path_pos && a.file_url_pos == b.file_url_pos
        && a.timestamp == b.timestamp && a.has_votable == b.has_votable && a.has_fits == b.has_fits
}

#[test]
fn rows_after_the_first_change_nothing() {
    let extra_rows = "<TR><TD>SUPA2</TD><TD>proc-2</TD><TD>other</TD><TD>2011-01-01</TD><TD>M33</TD><TD>B</TD><TD>1</TD><TD>2</TD><TD>3</TD><TD>um</TD><TD>1.0</TD><TD>2.0</TD><TD>99</TD><TD>/x</TD><TD>http://x</TD></TR><TR><TD>z</TD></TR>";
    let longer = VOTABLE.replacen("</TR>", &format!("</TR>{}", extra_rows), 1);
    assert_ne!(longer, VOTABLE);
    let mut a = SubaruDataset::new(&"SUPA01234567".to_string(), 1);
    let mut b = SubaruDataset::new(&"SUPA01234567".to_string(), 1);
    assert!(subaru_votable(&mut a, VOTABLE.as_bytes()));
    assert!(subaru_votable(&mut b, longer.as_bytes()));
    assert!(same_except_position(&a, &b));
    assert_eq!(b.title, "M31 field");
    assert_ne!(a.current_pos, b.current_pos);
}

#[test]
fn served_requests_leave_every_dataset_complete() {
    let mut cache = DatasetCache::new();
    let ids = ["SUPA01234567".to_string(), "SUPA2".to_string(), "SUPA01234567".to_string()];
    for (t, id) in ids.iter().enumerate() {
        let mut xml: Option<&[u8]> = None;
        loop {
            match execute_subaru(&mut cache, id, t as u64, xml) {
                SubaruOutcome::NeedVotable => xml = Some(VOTABLE.as_bytes()),
                SubaruOutcome::VotableRejected => panic!("rejected"),
                SubaruOutcome::Page { .. } => break,
            }
        }
        for k in ids.iter().take(t + 1) {
            let d = cache.get(k).unwrap();
            assert_eq!(&d.data_id, k);
            assert!(d.has_votable && d.has_fits);
        }
    }
    assert_eq!(cache.len(), 2);
}

#[test]
fn page_served_from_cache_after_other_requests() {
    let mut cache = DatasetCache::new();
    let id = "SUPA01234567".to_string();
    let other = "SUPA2".to_string();
    assert!(matches!(execute_subaru(&mut cache, &id, 1, None), SubaruOutcome::NeedVotable));
    let first = match execute_subaru(&mut cache, &id, 1, Some(VOTABLE.as_bytes())) {
        SubaruOutcome::Page { html, .. } => html,
        _ => panic!("expected a page"),
    };
    assert!(matches!(execute_subaru(&mut cache, &other, 2, None), SubaruOutcome::NeedVotable));
    assert!(matches!(execute_subaru(&mut cache, &other, 3, Some(b"<broken")), SubaruOutcome::Page { .. }));
    match execute_subaru(&mut cache, &id, 4, Some(b"ignored")) {
        SubaruOutcome::Page { html, fits_filename } => {
            assert_eq!(html, first);
            assert_eq!(fits_filename, None);
        }
        _ => panic!("expected a page"),
    }
    assert_eq!(cache.get(&id).unwrap().timestamp, 4);
}
