//! The document model: data types, fields, header, records and the file,
//! each with a specification-level view, and the named lookups over them.

use vstd::prelude::*;
use std::collections::HashMap;
use crate::chars::{spec_upper_char, spec_upper_seq, str_eq, upper_string};

verus! {

/// The kind of value a field declares, through its one-character indicator.
#[derive(Debug, Clone, Copy, PartialEq, Eq, Structural)]
pub enum DataType {
    /// Boolean (Y/N), indicator `B`.
    Boolean,
    /// Number (decimal with optional point), indicator `N`.
    Number,
    /// Date (YYYYMMDD), indicator `D`.
    Date,
    /// Time (HHMMSS or HHMM), indicator `T`.
    Time,
    /// Character string, indicator `S`.
    String,
    /// Multiline string, indicator `M`.
    MultilineString,
    /// Enumeration, indicator `E`.
    Enumeration,
    /// Location (XDDD MM.MMM), indicator `L`.
    Location,
    /// International string, indicator `I`.
    IntlString,
    /// International multiline string, indicator `G`.
    IntlMultilineString,
    /// No indicator given, or one that is not recognized.
    Unspecified,
}

/// The data type a (case-folded) indicator character names, if any.
pub open spec fn spec_dt_from_char(c: char) -> Option<DataType> {
    let u = spec_upper_char(c);
    if u == 'B' {
        Some(DataType::Boolean)
    } else if u == 'N' {
        Some(DataType::Number)
    } else if u == 'D' {
        Some(DataType::Date)
    } else if u == 'T' {
        Some(DataType::Time)
    } else if u == 'S' {
        Some(DataType::String)
    } else if u == 'M' {
        Some(DataType::MultilineString)
    } else if u == 'E' {
        Some(DataType::Enumeration)
    } else if u == 'L' {
        Some(DataType::Location)
    } else if u == 'I' {
        Some(DataType::IntlString)
    } else if u == 'G' {
        Some(DataType::IntlMultilineString)
    } else {
        None
    }
}

/// The indicator character of a data type; `Unspecified` has none.
pub open spec fn spec_dt_to_char(dt: DataType) -> Option<char> {
    match dt {
        DataType::Boolean => Some('B'),
        DataType::Number => Some('N'),
        DataType::Date => Some('D'),
        DataType::Time => Some('T'),
        DataType::String => Some('S'),
        DataType::MultilineString => Some('M'),
        DataType::Enumeration => Some('E'),
        DataType::Location => Some('L'),
        DataType::IntlString => Some('I'),
        DataType::IntlMultilineString => Some('G'),
        DataType::Unspecified => None,
    }
}

impl DataType {
    /// Parse a data type indicator character, case-insensitively.
    pub fn from_char(c: char) -> (r: Option<DataType>)
        ensures
            r == spec_dt_from_char(c),
    {
        let u = crate::chars::upper_char(c);
        if u == 'B' {
            Some(DataType::Boolean)
        } else if u == 'N' {
            Some(DataType::Number)
        } else if u == 'D' {
            Some(DataType::Date)
        } else if u == 'T' {
            Some(DataType::Time)
        } else if u == 'S' {
            Some(DataType::String)
        } else if u == 'M' {
            Some(DataType::MultilineString)
        } else if u == 'E' {
            Some(DataType::Enumeration)
        } else if u == 'L' {
            Some(DataType::Location)
        } else if u == 'I' {
            Some(DataType::IntlString)
        } else if u == 'G' {
            Some(DataType::IntlMultilineString)
        } else {
            None
        }
    }

    /// The fixed-case indicator character of this data type.
    pub fn to_char(self) -> (r: Option<char>)
        ensures
            r == spec_dt_to_char(self),
    {
        match self {
            DataType::Boolean => Some('B'),
            DataType::Number => Some('N'),
            DataType::Date => Some('D'),
            DataType::Time => Some('T'),
            DataType::String => Some('S'),
            DataType::MultilineString => Some('M'),
            DataType::Enumeration => Some('E'),
            DataType::Location => Some('L'),
            DataType::IntlString => Some('I'),
            DataType::IntlMultilineString => Some('G'),
            DataType::Unspecified => None,
        }
    }
}

/// Law: a recognized indicator round-trips; `to_char` recovers the
/// uppercased indicator the type was parsed from.
pub proof fn lemma_indicator_round_trip(c: char)
    ensures
        match spec_dt_from_char(c) {
            Some(dt) => spec_dt_to_char(dt) == Some(spec_upper_char(c)),
            None => true,
        },
{
}

/// Law: every data type other than `Unspecified` is recovered from its
/// own indicator character.
pub proof fn lemma_data_type_round_trip(dt: DataType)
    ensures
        dt != DataType::Unspecified ==> spec_dt_from_char(spec_dt_to_char(dt)->Some_0)
            == Some(dt),
{
}

/// One field: a name (stored uppercased), a data type, and a value that is
/// exactly the span of characters the field's length clause declared.
#[derive(Debug, Clone, PartialEq, Eq)]
pub struct Field {
    /// Field name, stored uppercase whatever the input case.
    pub name: String,
    /// Declared data type, `Unspecified` when absent or unrecognized.
    pub data_type: DataType,
    /// The value, untrimmed and unescaped.
    pub value: String,
}

/// The mathematical image of a [`Field`].
#[verifier::ext_equal]
pub struct FieldView {
    pub name: Seq<char>,
    pub data_type: DataType,
    pub value: Seq<char>,
}

impl View for Field {
    type V = FieldView;

    open spec fn view(&self) -> FieldView {
        FieldView { name: self.name@, data_type: self.data_type, value: self.value@ }
    }
}

impl Field {
    /// A field with no declared type; the name is uppercased.
    pub fn new(name: &str, value: &str) -> (r: Field)
        ensures
            r@.name == spec_upper_seq(name@),
            r@.data_type == DataType::Unspecified,
            r@.value == value@,
    {
        Field {
            name: upper_string(name),
            data_type: DataType::Unspecified,
            value: value.to_owned(),
        }
    }

    /// A field with a declared type; the name is uppercased.
    pub fn with_type(name: &str, data_type: DataType, value: &str) -> (r: Field)
        ensures
            r@.name == spec_upper_seq(name@),
            r@.data_type == data_type,
            r@.value == value@,
    {
        Field { name: upper_string(name), data_type, value: value.to_owned() }
    }
}

/// The first field of `fields` whose (uppercase) name is `name_upper`.
pub open spec fn spec_get(fields: Seq<FieldView>, name_upper: Seq<char>) -> Option<FieldView>
    decreases fields.len(),
{
    if fields.len() == 0 {
        None
    } else if fields[0].name == name_upper {
        Some(fields[0])
    } else {
        spec_get(fields.drop_first(), name_upper)
    }
}

/// The value of the first field named `name_upper`, if any.
pub open spec fn spec_get_value(fields: Seq<FieldView>, name_upper: Seq<char>) -> Option<
    Seq<char>,
> {
    match spec_get(fields, name_upper) {
        Some(f) => Some(f.value),
        None => None,
    }
}

/// Law: lookups are case-insensitive; two names with the same uppercase
/// image find the same field.
pub proof fn lemma_get_case_insensitive(
    fields: Seq<FieldView>,
    name_a: Seq<char>,
    name_b: Seq<char>,
)
    requires
        spec_upper_seq(name_a) == spec_upper_seq(name_b),
    ensures
        spec_get(fields, spec_upper_seq(name_a)) == spec_get(fields, spec_upper_seq(name_b)),
{
}

/// If none of the first `i` fields is named `name`, the lookup result is
/// decided by the rest of the sequence.
proof fn lemma_spec_get_skip(fields: Seq<FieldView>, name: Seq<char>, i: int)
    requires
        0 <= i <= fields.len(),
        forall|j: int| 0 <= j < i ==> fields[j].name != name,
    ensures
        spec_get(fields, name) == spec_get(fields.skip(i), name),
    decreases i,
{
    if i > 0 {
        lemma_spec_get_skip(fields.drop_first(), name, i - 1);
        assert(fields.drop_first().skip(i - 1) =~= fields.skip(i));
    } else {
        assert(fields.skip(0) =~= fields);
    }
}

/// First field in `fields` whose name equals the uppercase image of `name`.
fn find_field<'a>(fields: &'a Vec<Field>, name: &str) -> (r: Option<&'a Field>)
    ensures
        ({
            let fv = Seq::new(fields@.len(), |i: int| fields@[i]@);
            let g = spec_get(fv, spec_upper_seq(name@));
            match r {
                Some(f) => g == Some(f@),
                None => g is None,
            }
        }),
{
    let ghost fv = Seq::new(fields@.len(), |i: int| fields@[i]@);
    let name_upper = upper_string(name);
    let mut i: usize = 0;
    while i < fields.len()
        invariant
            i <= fields.len(),
            fv == Seq::new(fields@.len(), |j: int| fields@[j]@),
            name_upper@ == spec_upper_seq(name@),
            forall|j: int| 0 <= j < i ==> fv[j].name != name_upper@,
        decreases fields.len() - i,
    {
        if str_eq(fields[i].name.as_str(), name_upper.as_str()) {
            proof {
                lemma_spec_get_skip(fv, name_upper@, i as int);
                assert(fv.skip(i as int)[0] == fv[i as int]);
            }
            return Some(&fields[i]);
        }
        i = i + 1;
    }
    proof {
        lemma_spec_get_skip(fv, name_upper@, i as int);
    }
    None
}

/// The file header: the four well-known attributes mirrored out of the
/// field list, the full field list, and the preamble text.
#[derive(Debug, Clone)]
pub struct AdifHeader {
    /// Mirrors the last `ADIF_VER` header field.
    pub adif_version: Option<String>,
    /// Mirrors the last `PROGRAMID` header field.
    pub program_id: Option<String>,
    /// Mirrors the last `PROGRAMVERSION` header field.
    pub program_version: Option<String>,
    /// Mirrors the last `CREATED_TIMESTAMP` header field.
    pub created_timestamp: Option<String>,
    /// All header fields, in order of appearance.
    pub fields: Vec<Field>,
    /// Verbatim text preceding the first tag.
    pub preamble: String,
}

/// The mathematical image of an [`AdifHeader`].
#[verifier::ext_equal]
pub struct HeaderView {
    pub adif_version: Option<Seq<char>>,
    pub program_id: Option<Seq<char>>,
    pub program_version: Option<Seq<char>>,
    pub created_timestamp: Option<Seq<char>>,
    pub fields: Seq<FieldView>,
    pub preamble: Seq<char>,
}

/// The header a document has when its input declares none.
pub open spec fn spec_empty_header() -> HeaderView {
    HeaderView {
        adif_version: None,
        program_id: None,
        program_version: None,
        created_timestamp: None,
        fields: Seq::empty(),
        preamble: Seq::empty(),
    }
}

impl View for AdifHeader {
    type V = HeaderView;

    open spec fn view(&self) -> HeaderView {
        HeaderView {
            adif_version: match &self.adif_version {
                Some(s) => Some(s@),
                None => None,
            },
            program_id: match &self.program_id {
                Some(s) => Some(s@),
                None => None,
            },
            program_version: match &self.program_version {
                Some(s) => Some(s@),
                None => None,
            },
            created_timestamp: match &self.created_timestamp {
                Some(s) => Some(s@),
                None => None,
            },
            fields: Seq::new(self.fields@.len(), |i: int| self.fields@[i]@),
            preamble: self.preamble@,
        }
    }
}

impl Default for AdifHeader {
    /// A header with no attributes, no fields and an empty preamble.
    fn default() -> (h: AdifHeader)
        ensures
            h@ =~= spec_empty_header(),
    {
        AdifHeader {
            adif_version: None,
            program_id: None,
            program_version: None,
            created_timestamp: None,
            fields: Vec::new(),
            preamble: String::new(),
        }
    }
}

impl AdifHeader {
    /// The first header field with this name, case-insensitively.
    pub fn get(&self, name: &str) -> (r: Option<&Field>)
        ensures
            ({
                let g = spec_get(self@.fields, spec_upper_seq(name@));
                match r {
                    Some(f) => g == Some(f@),
                    None => g is None,
                }
            }),
    {
        find_field(&self.fields, name)
    }

    /// The value of the first header field with this name.
    pub fn get_value(&self, name: &str) -> (r: Option<&str>)
        ensures
            ({
                let g = spec_get_value(self@.fields, spec_upper_seq(name@));
                match r {
                    Some(v) => g == Some(v@),
                    None => g is None,
                }
            }),
    {
        match self.get(name) {
            Some(f) => Some(f.value.as_str()),
            None => None,
        }
    }
}

/// One contact record: fields in insertion order, duplicates allowed.
#[derive(Debug, Clone)]
pub struct Record {
    /// The record's fields.
    pub fields: Vec<Field>,
}

impl View for Record {
    type V = Seq<FieldView>;

    open spec fn view(&self) -> Seq<FieldView> {
        Seq::new(self.fields@.len(), |i: int| self.fields@[i]@)
    }
}

impl Default for Record {
    /// A record with no fields.
    fn default() -> (r: Record)
        ensures
            r@ =~= Seq::<FieldView>::empty(),
    {
        Record { fields: Vec::new() }
    }
}

/// The name-to-value map a record folds down to, later fields winning.
pub open spec fn spec_to_map(fields: Seq<Field>) -> Map<String, String>
    decreases fields.len(),
{
    if fields.len() == 0 {
        Map::empty()
    } else {
        spec_to_map(fields.drop_last()).insert(fields.last().name, fields.last().value)
    }
}

impl Record {
    /// A record with no fields.
    pub fn new() -> (r: Record)
        ensures
            r@ =~= Seq::<FieldView>::empty(),
    {
        Record { fields: Vec::new() }
    }

    /// Append a field; earlier fields keep their places.
    pub fn add_field(&mut self, field: Field)
        ensures
            final(self)@ =~= old(self)@.push(field@),
    {
        self.fields.push(field);
    }

    /// The first field with this name, case-insensitively.
    pub fn get(&self, name: &str) -> (r: Option<&Field>)
        ensures
            ({
                let g = spec_get(self@, spec_upper_seq(name@));
                match r {
                    Some(f) => g == Some(f@),
                    None => g is None,
                }
            }),
    {
        find_field(&self.fields, name)
    }

    /// The value of the first field with this name.
    pub fn get_value(&self, name: &str) -> (r: Option<&str>)
        ensures
            ({
                let g = spec_get_value(self@, spec_upper_seq(name@));
                match r {
                    Some(v) => g == Some(v@),
                    None => g is None,
                }
            }),
    {
        match self.get(name) {
            Some(f) => Some(f.value.as_str()),
            None => None,
        }
    }

    /// The record's fields as a name-to-value map. The contract holds under
    /// vstd's model assumptions for `String` keys, which vstd states but
    /// does not discharge for non-integer keys.
    pub fn to_map(&self) -> (r: HashMap<String, String>)
        ensures
            vstd::std_specs::hash::obeys_key_model::<String>() ==> r@ == spec_to_map(
                self.fields@,
            ),
    {
        broadcast use vstd::std_specs::hash::axiom_random_state_builds_valid_hashers;
        let mut r: HashMap<String, String> = HashMap::new();
        let mut i: usize = 0;
        while i < self.fields.len()
            invariant
                i <= self.fields.len(),
                vstd::std_specs::hash::builds_valid_hashers::<std::hash::RandomState>(),
                vstd::std_specs::hash::obeys_key_model::<String>() ==> r@ == spec_to_map(
                    self.fields@.take(i as int),
                ),
            decreases self.fields.len() - i,
        {
            r.insert(self.fields[i].name.clone(), self.fields[i].value.clone());
            i = i + 1;
            proof {
                assert(self.fields@.take(i as int).drop_last() =~= self.fields@.take(
                    i as int - 1,
                ));
            }
        }
        proof {
            assert(self.fields@.take(self.fields@.len() as int) =~= self.fields@);
        }
        r
    }

    /// The contacted station's call sign.
    pub fn call(&self) -> (r: Option<&str>)
        ensures
            ({
                let g = spec_get_value(self@, spec_upper_seq("CALL"@));
                match r {
                    Some(v) => g == Some(v@),
                    None => g is None,
                }
            }),
    {
        self.get_value("CALL")
    }

    /// The contact date.
    pub fn qso_date(&self) -> (r: Option<&str>)
        ensures
            ({
                let g = spec_get_value(self@, spec_upper_seq("QSO_DATE"@));
                match r {
                    Some(v) => g == Some(v@),
                    None => g is None,
                }
            }),
    {
        self.get_value("QSO_DATE")
    }

    /// The contact start time.
    pub fn time_on(&self) -> (r: Option<&str>)
        ensures
            ({
                let g = spec_get_value(self@, spec_upper_seq("TIME_ON"@));
                match r {
                    Some(v) => g == Some(v@),
                    None => g is None,
                }
            }),
    {
        self.get_value("TIME_ON")
    }

    /// The band.
    pub fn band(&self) -> (r: Option<&str>)
        ensures
            ({
                let g = spec_get_value(self@, spec_upper_seq("BAND"@));
                match r {
                    Some(v) => g == Some(v@),
                    None => g is None,
                }
            }),
    {
        self.get_value("BAND")
    }

    /// The frequency in MHz.
    pub fn freq(&self) -> (r: Option<&str>)
        ensures
            ({
                let g = spec_get_value(self@, spec_upper_seq("FREQ"@));
                match r {
                    Some(v) => g == Some(v@),
                    None => g is None,
                }
            }),
    {
        self.get_value("FREQ")
    }

    /// The mode.
    pub fn mode(&self) -> (r: Option<&str>)
        ensures
            ({
                let g = spec_get_value(self@, spec_upper_seq("MODE"@));
                match r {
                    Some(v) => g == Some(v@),
                    None => g is None,
                }
            }),
    {
        self.get_value("MODE")
    }

    /// The signal report sent.
    pub fn rst_sent(&self) -> (r: Option<&str>)
        ensures
            ({
                let g = spec_get_value(self@, spec_upper_seq("RST_SENT"@));
                match r {
                    Some(v) => g == Some(v@),
                    None => g is None,
                }
            }),
    {
        self.get_value("RST_SENT")
    }

    /// The signal report received.
    pub fn rst_rcvd(&self) -> (r: Option<&str>)
        ensures
            ({
                let g = spec_get_value(self@, spec_upper_seq("RST_RCVD"@));
                match r {
                    Some(v) => g == Some(v@),
                    None => g is None,
                }
            }),
    {
        self.get_value("RST_RCVD")
    }
}

/// A parsed document: one header and the records, in input order.
#[derive(Debug, Clone)]
pub struct AdifFile {
    /// The header; default when the input declares none.
    pub header: AdifHeader,
    /// The records.
    pub records: Vec<Record>,
}

/// The mathematical image of an [`AdifFile`].
#[verifier::ext_equal]
pub struct FileView {
    pub header: HeaderView,
    pub records: Seq<Seq<FieldView>>,
}

impl View for AdifFile {
    type V = FileView;

    open spec fn view(&self) -> FileView {
        FileView {
            header: self.header@,
            records: Seq::new(self.records@.len(), |i: int| self.records@[i]@),
        }
    }
}

impl Default for AdifFile {
    /// A document with the default header and no records.
    fn default() -> (r: AdifFile)
        ensures
            r@ =~= (FileView { header: spec_empty_header(), records: Seq::empty() }),
    {
        AdifFile { header: Default::default(), records: Vec::new() }
    }
}

impl AdifFile {
    /// A document with the default header and no records.
    pub fn new() -> (r: AdifFile)
        ensures
            r@ =~= (FileView { header: spec_empty_header(), records: Seq::empty() }),
    {
        Default::default()
    }

    /// The number of records.
    pub fn len(&self) -> (r: usize)
        ensures
            r == self@.records.len(),
    {
        self.records.len()
    }

    /// Whether the document holds no records.
    pub fn is_empty(&self) -> (r: bool)
        ensures
            r == (self@.records.len() == 0),
    {
        self.records.len() == 0
    }

    /// The records, for iteration.
    pub fn iter(&self) -> (r: &Vec<Record>)
        ensures
            r == &self.records,
    {
        &self.records
    }
}

} // verus!
