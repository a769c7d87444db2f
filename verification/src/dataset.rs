//! A Subaru dataset: the metadata of one observation, as read from its VOTable.

use vstd::prelude::*;

use crate::text::{scan_column_id, scan_u64, scanned_column_id, scanned_u64, trim, trimmed};

verus! {

/// A column of the VOTable that the service reads.
#[derive(Clone, Copy, Debug, PartialEq, Eq, Structural)]
pub enum Column {
    DataId,
    ProcessId,
    Title,
    DateObs,
    Objects,
    BandName,
    BandRef,
    BandHi,
    BandLo,
    BandUnit,
    Ra,
    Dec,
    FileSize,
    FilePath,
    FileUrl,
}

/// The column that a FIELD's (trimmed) `name` attribute denotes.
pub open spec fn column_named(name: Seq<char>) -> Option<Column> {
    if name == "DATA_ID"@ {
        Some(Column::DataId)
    } else if name == "PROC_ID"@ {
        Some(Column::ProcessId)
    } else if name == "TITLE"@ {
        Some(Column::Title)
    } else if name == "DATE_OBS"@ {
        Some(Column::DateObs)
    } else if name == "OBJECTS"@ {
        Some(Column::Objects)
    } else if name == "BAND_NAME"@ {
        Some(Column::BandName)
    } else if name == "BAND_REFVAL"@ {
        Some(Column::BandRef)
    } else if name == "BAND_HILIMIT"@ {
        Some(Column::BandHi)
    } else if name == "BAND_LOLIMIT"@ {
        Some(Column::BandLo)
    } else if name == "BAND_UNIT"@ {
        Some(Column::BandUnit)
    } else if name == "CENTER_RA"@ {
        Some(Column::Ra)
    } else if name == "CENTER_DEC"@ {
        Some(Column::Dec)
    } else if name == "FILE_SIZE"@ {
        Some(Column::FileSize)
    } else if name == "PATH"@ {
        Some(Column::FilePath)
    } else if name == "ACCESS_REF"@ {
        Some(Column::FileUrl)
    } else {
        None
    }
}

/// Whether two strings hold the same characters.
pub fn text_equals(a: &str, b: &str) -> (r: bool)
    ensures
        r == (a@ == b@),
{
    let a_owned = a.to_owned();
    let b_owned = b.to_owned();
    a_owned == b_owned
}

/// The column that a FIELD's (trimmed) `name` attribute denotes.
pub fn column_for_name(name: &str) -> (r: Option<Column>)
    ensures
        r == column_named(name@),
{
    if text_equals(name, "DATA_ID") {
        Some(Column::DataId)
    } else if text_equals(name, "PROC_ID") {
        Some(Column::ProcessId)
    } else if text_equals(name, "TITLE") {
        Some(Column::Title)
    } else if text_equals(name, "DATE_OBS") {
        Some(Column::DateObs)
    } else if text_equals(name, "OBJECTS") {
        Some(Column::Objects)
    } else if text_equals(name, "BAND_NAME") {
        Some(Column::BandName)
    } else if text_equals(name, "BAND_REFVAL") {
        Some(Column::BandRef)
    } else if text_equals(name, "BAND_HILIMIT") {
        Some(Column::BandHi)
    } else if text_equals(name, "BAND_LOLIMIT") {
        Some(Column::BandLo)
    } else if text_equals(name, "BAND_UNIT") {
        Some(Column::BandUnit)
    } else if text_equals(name, "CENTER_RA") {
        Some(Column::Ra)
    } else if text_equals(name, "CENTER_DEC") {
        Some(Column::Dec)
    } else if text_equals(name, "FILE_SIZE") {
        Some(Column::FileSize)
    } else if text_equals(name, "PATH") {
        Some(Column::FilePath)
    } else if text_equals(name, "ACCESS_REF") {
        Some(Column::FileUrl)
    } else {
        None
    }
}

/// The metadata of one dataset, and where the VOTable reader stands in its table.
#[derive(Debug)]
pub struct SubaruDataset {
    pub data_id: String,
    pub process_id: String,
    pub title: String,
    pub date_obs: String,
    pub objects: String,
    pub band_name: String,
    pub band_ref: String,
    pub band_hi: String,
    pub band_lo: String,
    pub band_unit: String,
    pub ra: String,
    pub dec: String,
    pub file_size: u64,
    pub file_path: String,
    pub file_url: String,
    /// The column of the table cell being read; -1 before any.
    pub current_pos: i32,
    pub data_id_pos: i32,
    pub process_id_pos: i32,
    pub title_pos: i32,
    pub date_obs_pos: i32,
    pub objects_pos: i32,
    pub band_name_pos: i32,
    pub band_ref_pos: i32,
    pub band_hi_pos: i32,
    pub band_lo_pos: i32,
    pub band_unit_pos: i32,
    pub ra_pos: i32,
    pub dec_pos: i32,
    pub file_size_pos: i32,
    pub file_path_pos: i32,
    pub file_url_pos: i32,
    /// When the dataset was last requested, as the caller measures time.
    pub timestamp: u64,
    pub has_votable: bool,
    pub has_fits: bool,
}

/// The mathematical value of a `SubaruDataset`.
pub struct DatasetView {
    pub data_id: Seq<char>,
    pub process_id: Seq<char>,
    pub title: Seq<char>,
    pub date_obs: Seq<char>,
    pub objects: Seq<char>,
    pub band_name: Seq<char>,
    pub band_ref: Seq<char>,
    pub band_hi: Seq<char>,
    pub band_lo: Seq<char>,
    pub band_unit: Seq<char>,
    pub ra: Seq<char>,
    pub dec: Seq<char>,
    pub file_size: u64,
    pub file_path: Seq<char>,
    pub file_url: Seq<char>,
    pub current_pos: i32,
    pub data_id_pos: i32,
    pub process_id_pos: i32,
    pub title_pos: i32,
    pub date_obs_pos: i32,
    pub objects_pos: i32,
    pub band_name_pos: i32,
    pub band_ref_pos: i32,
    pub band_hi_pos: i32,
    pub band_lo_pos: i32,
    pub band_unit_pos: i32,
    pub ra_pos: i32,
    pub dec_pos: i32,
    pub file_size_pos: i32,
    pub file_path_pos: i32,
    pub file_url_pos: i32,
    pub timestamp: u64,
    pub has_votable: bool,
    pub has_fits: bool,
}

impl View for SubaruDataset {
    type V = DatasetView;

    open spec fn view(&self) -> DatasetView {
        DatasetView {
            data_id: self.data_id@,
            process_id: self.process_id@,
            title: self.title@,
            date_obs: self.date_obs@,
            objects: self.objects@,
            band_name: self.band_name@,
            band_ref: self.band_ref@,
            band_hi: self.band_hi@,
            band_lo: self.band_lo@,
            band_unit: self.band_unit@,
            ra: self.ra@,
            dec: self.dec@,
            file_size: self.file_size,
            file_path: self.file_path@,
            file_url: self.file_url@,
            current_pos: self.current_pos,
            data_id_pos: self.data_id_pos,
            process_id_pos: self.process_id_pos,
            title_pos: self.title_pos,
            date_obs_pos: self.date_obs_pos,
            objects_pos: self.objects_pos,
            band_name_pos: self.band_name_pos,
            band_ref_pos: self.band_ref_pos,
            band_hi_pos: self.band_hi_pos,
            band_lo_pos: self.band_lo_pos,
            band_unit_pos: self.band_unit_pos,
            ra_pos: self.ra_pos,
            dec_pos: self.dec_pos,
            file_size_pos: self.file_size_pos,
            file_path_pos: self.file_path_pos,
            file_url_pos: self.file_url_pos,
            timestamp: self.timestamp,
            has_votable: self.has_votable,
            has_fits: self.has_fits,
        }
    }
}

/// A dataset that nothing has been read into yet.
pub open spec fn fresh_dataset(data_id: Seq<char>, timestamp: u64) -> DatasetView {
    DatasetView {
        data_id: data_id,
        process_id: Seq::empty(),
        title: Seq::empty(),
        date_obs: Seq::empty(),
        objects: Seq::empty(),
        band_name: Seq::empty(),
        band_ref: Seq::empty(),
        band_hi: Seq::empty(),
        band_lo: Seq::empty(),
        band_unit: Seq::empty(),
        ra: Seq::empty(),
        dec: Seq::empty(),
        file_size: 0,
        file_path: Seq::empty(),
        file_url: Seq::empty(),
        current_pos: -1i32,
        data_id_pos: -1i32,
        process_id_pos: -1i32,
        title_pos: -1i32,
        date_obs_pos: -1i32,
        objects_pos: -1i32,
        band_name_pos: -1i32,
        band_ref_pos: -1i32,
        band_hi_pos: -1i32,
        band_lo_pos: -1i32,
        band_unit_pos: -1i32,
        ra_pos: -1i32,
        dec_pos: -1i32,
        file_size_pos: -1i32,
        file_path_pos: -1i32,
        file_url_pos: -1i32,
        timestamp: timestamp,
        has_votable: false,
        has_fits: false,
    }
}

/// `d` with the column of `col` set to `p`.
pub open spec fn with_column_position(d: DatasetView, col: Column, p: i32) -> DatasetView {
    match col {
        Column::DataId => DatasetView { data_id_pos: p, ..d },
        Column::ProcessId => DatasetView { process_id_pos: p, ..d },
        Column::Title => DatasetView { title_pos: p, ..d },
        Column::DateObs => DatasetView { date_obs_pos: p, ..d },
        Column::Objects => DatasetView { objects_pos: p, ..d },
        Column::BandName => DatasetView { band_name_pos: p, ..d },
        Column::BandRef => DatasetView { band_ref_pos: p, ..d },
        Column::BandHi => DatasetView { band_hi_pos: p, ..d },
        Column::BandLo => DatasetView { band_lo_pos: p, ..d },
        Column::BandUnit => DatasetView { band_unit_pos: p, ..d },
        Column::Ra => DatasetView { ra_pos: p, ..d },
        Column::Dec => DatasetView { dec_pos: p, ..d },
        Column::FileSize => DatasetView { file_size_pos: p, ..d },
        Column::FilePath => DatasetView { file_path_pos: p, ..d },
        Column::FileUrl => DatasetView { file_url_pos: p, ..d },
    }
}

/// How a band unit is shown on the page: Angstrom and micrometre as HTML entities.
pub open spec fn displayed_band_unit(unit: Seq<char>) -> Seq<char> {
    if unit == "A"@ {
        "&#8491;"@
    } else if unit == "um"@ {
        "&#181;m"@
    } else {
        unit
    }
}

/// The dataset after the text `text` of the cell in column `d.current_pos`:
/// each field whose column that is takes the text.
pub open spec fn after_characters(d: DatasetView, text: Seq<char>) -> DatasetView {
    let c = d.current_pos;
    DatasetView {
        process_id: if c == d.process_id_pos { text } else { d.process_id },
        title: if c == d.title_pos { text } else { d.title },
        date_obs: if c == d.date_obs_pos { text } else { d.date_obs },
        objects: if c == d.objects_pos { text } else { d.objects },
        band_name: if c == d.band_name_pos { text } else { d.band_name },
        band_ref: if c == d.band_ref_pos { text } else { d.band_ref },
        band_hi: if c == d.band_hi_pos { text } else { d.band_hi },
        band_lo: if c == d.band_lo_pos { text } else { d.band_lo },
        band_unit: if c == d.band_unit_pos { displayed_band_unit(text) } else { d.band_unit },
        ra: if c == d.ra_pos { text } else { d.ra },
        dec: if c == d.dec_pos { text } else { d.dec },
        file_size: if c == d.file_size_pos {
            match scanned_u64(text) {
                Some(v) => v,
                None => d.file_size,
            }
        } else {
            d.file_size
        },
        file_path: if c == d.file_path_pos { text } else { d.file_path },
        file_url: if c == d.file_url_pos { text } else { d.file_url },
        ..d
    }
}

/// The dataset after one attribute `(name, value)` of a FIELD element:
/// `ID="C<n>"` moves to column `n`, and `name="<column>"` places that
/// column at the current one.
pub open spec fn after_field_attribute(d: DatasetView, attr: (Seq<char>, Seq<char>)) -> DatasetView {
    if trimmed(attr.0) == "ID"@ {
        match scanned_column_id(attr.1) {
            Some(p) => DatasetView { current_pos: p, ..d },
            None => d,
        }
    } else if trimmed(attr.0) == "name"@ {
        match column_named(trimmed(attr.1)) {
            Some(col) => with_column_position(d, col, d.current_pos),
            None => d,
        }
    } else {
        d
    }
}

/// The dataset after the attributes `attrs` of a FIELD element, in order.
pub open spec fn after_field_attributes(d: DatasetView, attrs: Seq<(Seq<char>, Seq<char>)>) -> DatasetView
    decreases attrs.len(),
{
    if attrs.len() == 0 {
        d
    } else {
        after_field_attribute(after_field_attributes(d, attrs.drop_last()), attrs.last())
    }
}

/// The dataset after the start of an element: a FIELD reads its attributes
/// and returns to column 0; a TD moves to the next column.
pub open spec fn after_start_element(
    d: DatasetView,
    name: Seq<char>,
    attrs: Seq<(Seq<char>, Seq<char>)>,
) -> DatasetView {
    if name == "FIELD"@ {
        DatasetView { current_pos: 0, ..after_field_attributes(d, attrs) }
    } else if name == "TD"@ {
        DatasetView { current_pos: (d.current_pos + 1) as i32, ..d }
    } else {
        d
    }
}

/// Sets `field` to `text` when `hit`.
fn take_text_if(field: &mut String, hit: bool, text: &String)
    ensures
        final(field)@ == (if hit { text@ } else { old(field)@ }),
{
    if hit {
        *field = text.clone();
    }
}

/// Sets `size` to the number that `text` holds, when `hit` and it holds one.
fn take_size_if(size: &mut u64, hit: bool, text: &String)
    ensures
        *final(size) == (if hit {
            match scanned_u64(text@) {
                Some(v) => v,
                None => *old(size),
            }
        } else {
            *old(size)
        }),
{
    if hit {
        match scan_u64(text.as_str()) {
            Some(v) => *size = v,
            None => {},
        }
    }
}

/// How a band unit is shown on the page: Angstrom and micrometre as HTML entities.
pub fn band_unit_for_display(unit: &String) -> (r: String)
    ensures
        r@ == displayed_band_unit(unit@),
{
    let mut shown = unit.clone();
    if text_equals(shown.as_str(), "A") {
        shown = String::from_str("&#8491;");
    }
    if text_equals(shown.as_str(), "um") {
        shown = String::from_str("&#181;m");
    }
    proof {
        if unit@ == "A"@ {
            reveal_strlit("&#8491;");
            reveal_strlit("um");
        }
    }
    shown
}

impl SubaruDataset {
    /// A dataset for `data_id` that nothing has been read into yet.
    pub fn new(data_id: &String, timestamp: u64) -> (r: SubaruDataset)
        ensures
            r@ == fresh_dataset(data_id@, timestamp),
    {
        SubaruDataset {
            data_id: data_id.clone(),
            process_id: String::new(),
            title: String::new(),
            date_obs: String::new(),
            objects: String::new(),
            band_name: String::new(),
            band_ref: String::new(),
            band_hi: String::new(),
            band_lo: String::new(),
            band_unit: String::new(),
            ra: String::new(),
            dec: String::new(),
            file_size: 0,
            file_path: String::new(),
            file_url: String::new(),
            current_pos: -1,
            data_id_pos: -1,
            process_id_pos: -1,
            title_pos: -1,
            date_obs_pos: -1,
            objects_pos: -1,
            band_name_pos: -1,
            band_ref_pos: -1,
            band_hi_pos: -1,
            band_lo_pos: -1,
            band_unit_pos: -1,
            ra_pos: -1,
            dec_pos: -1,
            file_size_pos: -1,
            file_path_pos: -1,
            file_url_pos: -1,
            timestamp: timestamp,
            has_votable: false,
            has_fits: false,
        }
    }

    /// Places column `col` at position `p`.
    pub fn set_column_position(&mut self, col: Column, p: i32)
        ensures
            final(self)@ == with_column_position(old(self)@, col, p),
    {
        match col {
            Column::DataId => self.data_id_pos = p,
            Column::ProcessId => self.process_id_pos = p,
            Column::Title => self.title_pos = p,
            Column::DateObs => self.date_obs_pos = p,
            Column::Objects => self.objects_pos = p,
            Column::BandName => self.band_name_pos = p,
            Column::BandRef => self.band_ref_pos = p,
            Column::BandHi => self.band_hi_pos = p,
            Column::BandLo => self.band_lo_pos = p,
            Column::BandUnit => self.band_unit_pos = p,
            Column::Ra => self.ra_pos = p,
            Column::Dec => self.dec_pos = p,
            Column::FileSize => self.file_size_pos = p,
            Column::FilePath => self.file_path_pos = p,
            Column::FileUrl => self.file_url_pos = p,
        }
    }

    /// Reads the text of a table cell into the fields of its column.
    pub fn read_characters(&mut self, text: &String)
        ensures
            final(self)@ == after_characters(old(self)@, text@),
    {
        let c = self.current_pos;
        take_text_if(&mut self.process_id, c == self.process_id_pos, text);
        take_text_if(&mut self.title, c == self.title_pos, text);
        take_text_if(&mut self.date_obs, c == self.date_obs_pos, text);
        take_text_if(&mut self.objects, c == self.objects_pos, text);
        take_text_if(&mut self.band_name, c == self.band_name_pos, text);
        take_text_if(&mut self.band_ref, c == self.band_ref_pos, text);
        take_text_if(&mut self.band_hi, c == self.band_hi_pos, text);
        take_text_if(&mut self.band_lo, c == self.band_lo_pos, text);
        if c == self.band_unit_pos {
            self.band_unit = band_unit_for_display(text);
        }
        take_text_if(&mut self.ra, c == self.ra_pos, text);
        take_text_if(&mut self.dec, c == self.dec_pos, text);
        take_size_if(&mut self.file_size, c == self.file_size_pos, text);
        take_text_if(&mut self.file_path, c == self.file_path_pos, text);
        take_text_if(&mut self.file_url, c == self.file_url_pos, text);
    }

    /// Reads one attribute of a FIELD element.
    pub fn read_field_attribute(&mut self, name: &String, value: &String)
        ensures
            final(self)@ == after_field_attribute(old(self)@, (name@, value@)),
    {
        let key = trim(name.as_str());
        if text_equals(key, "ID") {
            match scan_column_id(value.as_str()) {
                Some(p) => self.current_pos = p,
                None => {},
            }
        } else if text_equals(key, "name") {
            match column_for_name(trim(value.as_str())) {
                Some(col) => {
                    let p = self.current_pos;
                    self.set_column_position(col, p);
                },
                None => {},
            }
        }
    }
}

/// A displayed band unit is never a bare Angstrom or micrometre abbreviation.
pub proof fn lemma_displayed_band_unit_is_entity(unit: Seq<char>)
    ensures
        displayed_band_unit(unit) != "A"@,
        displayed_band_unit(unit) != "um"@,
{
    reveal_strlit("A");
    reveal_strlit("um");
    reveal_strlit("&#8491;");
    reveal_strlit("&#181;m");
    assert("A"@.len() == 1);
    assert("um"@.len() == 2);
    assert("&#8491;"@.len() == 7);
    assert("&#181;m"@.len() == 7);
}

} // verus!
