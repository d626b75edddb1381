//! The parser: a single-pass scanner over the input characters, specified
//! by a recursive model of the grammar and proved to return exactly what
//! the model says, for every input.
//!
//! Positions are character (Unicode scalar) indices, never byte offsets;
//! declared field lengths count scalar values as well.

use vstd::prelude::*;
use vstd::string::*;
use crate::chars::{
    is_digit, is_space, push_char, spec_is_digit, spec_is_space, spec_upper_char, spec_upper_seq,
    str_eq, string_from_range, upper_char, lemma_upper_seq_idempotent,
};
use crate::error::{AdifError, AdifErrorView};
use crate::types::{
    spec_empty_header, AdifFile, AdifHeader, DataType, Field, FieldView, FileView, HeaderView,
    Record, spec_dt_from_char,
};

verus! {

// ---------------------------------------------------------------------------
// The specification-level model of the grammar.
// ---------------------------------------------------------------------------

/// Index of the first `<` at or after `i`, or the input length if none.
pub open spec fn spec_find_lt(s: Seq<char>, i: int) -> int
    decreases s.len() - i when 0 <= i <= s.len()
{
    if i >= s.len() {
        i
    } else if s[i] == '<' {
        i
    } else {
        spec_find_lt(s, i + 1)
    }
}

/// Index just past the first `>` at or after `i`, or the input length if
/// none remains.
pub open spec fn spec_skip_to_gt(s: Seq<char>, i: int) -> int
    decreases s.len() - i when i <= s.len()
{
    if i >= s.len() {
        i
    } else if s[i] == '>' {
        i + 1
    } else {
        spec_skip_to_gt(s, i + 1)
    }
}

/// Index of the first `:` or `>` at or after `i`, or the input length.
pub open spec fn spec_name_end(s: Seq<char>, i: int) -> int
    decreases s.len() - i when i <= s.len()
{
    if i >= s.len() {
        i
    } else if s[i] == ':' || s[i] == '>' {
        i
    } else {
        spec_name_end(s, i + 1)
    }
}

/// Index of the first non-digit at or after `i`, or the input length.
pub open spec fn spec_digits_end(s: Seq<char>, i: int) -> int
    decreases s.len() - i when i <= s.len()
{
    if i >= s.len() {
        i
    } else if !spec_is_digit(s[i]) {
        i
    } else {
        spec_digits_end(s, i + 1)
    }
}

/// The number a run of decimal digits denotes.
pub open spec fn spec_digits_value(digits: Seq<char>) -> int
    decreases digits.len(),
{
    if digits.len() == 0 {
        0
    } else {
        spec_digits_value(digits.drop_last()) * 10 + crate::chars::spec_digit_val(digits.last())
    }
}

/// Whether position `i` starts the tag `<NAME>` or `<NAME:`,
/// case-insensitively in the name.
pub open spec fn spec_tag_at(s: Seq<char>, i: int, name: Seq<char>) -> bool {
    &&& 0 <= i
    &&& i + name.len() + 2 <= s.len()
    &&& s[i] == '<'
    &&& (forall|j: int| 0 <= j < name.len() ==> spec_upper_char(s[i + 1 + j]) == name[j])
    &&& (s[i + 1 + name.len()] == '>' || s[i + 1 + name.len()] == ':')
}

/// Whether position `i` starts an exact `<EOH>`, case-insensitively.
pub open spec fn spec_eoh_at(s: Seq<char>, i: int) -> bool {
    &&& 0 <= i
    &&& i + 5 <= s.len()
    &&& s[i] == '<'
    &&& spec_upper_char(s[i + 1]) == 'E'
    &&& spec_upper_char(s[i + 2]) == 'O'
    &&& spec_upper_char(s[i + 3]) == 'H'
    &&& s[i + 4] == '>'
}

/// Whether the input holds `<EOH>` anywhere, case-insensitively. Its
/// presence decides whether header parsing runs at all.
pub open spec fn spec_contains_eoh(s: Seq<char>) -> bool {
    exists|i: int| spec_eoh_at(s, i)
}

/// The last steps of a field parse: the closing `>` and the value of
/// exactly `length` characters.
pub open spec fn spec_finish_field(
    s: Seq<char>,
    name: Seq<char>,
    dt: DataType,
    after_type: int,
    length: int,
) -> Result<(FieldView, int), AdifErrorView> {
    if !(after_type < s.len() && s[after_type] == '>') {
        Err(AdifErrorView::InvalidDataSpecifier {
            position: after_type,
            message: "Expected '>' to close tag"@,
        })
    } else {
        let value_start = after_type + 1;
        if value_start + length > s.len() {
            Err(AdifErrorView::InvalidFieldLength {
                position: value_start,
                expected: length,
                found: s.len() - value_start,
            })
        } else {
            Ok(
                (
                    FieldView {
                        name,
                        data_type: dt,
                        value: s.subrange(value_start, value_start + length),
                    },
                    value_start + length,
                ),
            )
        }
    }
}

/// One data specifier parsed from position `pos`: the field it denotes and
/// the position just past its value, or the failure.
pub open spec fn spec_parse_field(s: Seq<char>, pos: int) -> Result<
    (FieldView, int),
    AdifErrorView,
> {
    if !(0 <= pos < s.len() && s[pos] == '<') {
        Err(AdifErrorView::ParseError {
            position: pos,
            message: "Expected '<' at start of field"@,
        })
    } else {
        let name_end = spec_name_end(s, pos + 1);
        let name = spec_upper_seq(s.subrange(pos + 1, name_end));
        if name.len() == 0 {
            Err(AdifErrorView::InvalidDataSpecifier {
                position: pos,
                message: "Empty field name"@,
            })
        } else if name_end < s.len() && s[name_end] == '>' {
            Ok(
                (
                    FieldView { name, data_type: DataType::Unspecified, value: Seq::empty() },
                    name_end + 1,
                ),
            )
        } else if !(name_end < s.len() && s[name_end] == ':') {
            Err(AdifErrorView::InvalidDataSpecifier {
                position: name_end,
                message: "Expected ':' after field name"@,
            })
        } else {
            let digits_start = name_end + 1;
            let digits_end = spec_digits_end(s, digits_start);
            if digits_end == digits_start || spec_digits_value(
                s.subrange(digits_start, digits_end),
            ) > usize::MAX as int {
                Err(AdifErrorView::InvalidDataSpecifier {
                    position: digits_start,
                    message: "Invalid length"@,
                })
            } else {
                let length = spec_digits_value(s.subrange(digits_start, digits_end));
                if digits_end < s.len() && s[digits_end] == ':' {
                    if digits_end + 1 >= s.len() {
                        Err(AdifErrorView::UnexpectedEof(digits_end + 1))
                    } else {
                        let dt = match spec_dt_from_char(s[digits_end + 1]) {
                            Some(d) => d,
                            None => DataType::Unspecified,
                        };
                        spec_finish_field(s, name, dt, digits_end + 2, length)
                    }
                } else {
                    spec_finish_field(s, name, DataType::Unspecified, digits_end, length)
                }
            }
        }
    }
}

/// A header extended by one parsed field: the field is appended, and the
/// four well-known names refresh their mirrored attributes.
pub open spec fn spec_header_add(h: HeaderView, f: FieldView) -> HeaderView {
    HeaderView {
        adif_version: if f.name == "ADIF_VER"@ {
            Some(f.value)
        } else {
            h.adif_version
        },
        program_id: if f.name == "PROGRAMID"@ {
            Some(f.value)
        } else {
            h.program_id
        },
        program_version: if f.name == "PROGRAMVERSION"@ {
            Some(f.value)
        } else {
            h.program_version
        },
        created_timestamp: if f.name == "CREATED_TIMESTAMP"@ {
            Some(f.value)
        } else {
            h.created_timestamp
        },
        fields: h.fields.push(f),
        preamble: h.preamble,
    }
}

/// The header loop: fields accumulate into `h` until `<EOH>` (consumed) or
/// the end of the input. Returns the header and the position after it.
pub open spec fn spec_parse_header_fields(s: Seq<char>, pos: int, h: HeaderView) -> Result<
    (HeaderView, int),
    AdifErrorView,
>
    decreases s.len() - pos when 0 <= pos <= s.len()
{
    if pos >= s.len() {
        Ok((h, pos))
    } else if s[pos] != '<' {
        spec_parse_header_fields(s, pos + 1, h)
    } else if spec_tag_at(s, pos, "EOH"@) {
        Ok((h, spec_skip_to_gt(s, pos + 1 + "EOH"@.len())))
    } else {
        match spec_parse_field(s, pos) {
            Err(e) => Err(e),
            Ok(fp) => if pos < fp.1 <= s.len() {
                spec_parse_header_fields(s, fp.1, spec_header_add(h, fp.0))
            } else {
                // a parsed field always consumes at least one character
                arbitrary()
            },
        }
    }
}

/// The whole header: the preamble runs to the first `<`, then the header
/// loop takes over.
pub open spec fn spec_parse_header(s: Seq<char>) -> Result<(HeaderView, int), AdifErrorView> {
    let preamble_end = spec_find_lt(s, 0);
    let h0 = HeaderView {
        adif_version: None,
        program_id: None,
        program_version: None,
        created_timestamp: None,
        fields: Seq::empty(),
        preamble: s.subrange(0, preamble_end),
    };
    spec_parse_header_fields(s, preamble_end, h0)
}

/// The records with a final in-progress one closed: a non-empty trailing
/// record is kept, an empty one is not.
pub open spec fn spec_close_records(
    recs: Seq<Seq<FieldView>>,
    cur: Seq<FieldView>,
) -> Seq<Seq<FieldView>> {
    if cur.len() > 0 {
        recs.push(cur)
    } else {
        recs
    }
}

/// The record loop: fields accumulate into `cur`; `<EOR>` closes a
/// non-empty record and is ignored otherwise; `<EOF>` stops everything.
pub open spec fn spec_parse_records_from(
    s: Seq<char>,
    pos: int,
    cur: Seq<FieldView>,
    recs: Seq<Seq<FieldView>>,
) -> Result<Seq<Seq<FieldView>>, AdifErrorView>
    decreases s.len() - pos when 0 <= pos <= s.len()
{
    if pos >= s.len() {
        Ok(spec_close_records(recs, cur))
    } else if s[pos] != '<' {
        spec_parse_records_from(s, pos + 1, cur, recs)
    } else if spec_tag_at(s, pos, "EOR"@) {
        let p2 = spec_skip_to_gt(s, pos + 1 + "EOR"@.len());
        if pos < p2 <= s.len() {
            if cur.len() > 0 {
                spec_parse_records_from(s, p2, Seq::empty(), recs.push(cur))
            } else {
                spec_parse_records_from(s, p2, cur, recs)
            }
        } else {
            // skipping a recognized tag always moves forward
            arbitrary()
        }
    } else if spec_tag_at(s, pos, "EOF"@) {
        Ok(spec_close_records(recs, cur))
    } else {
        match spec_parse_field(s, pos) {
            Err(e) => Err(e),
            Ok(fp) => if pos < fp.1 <= s.len() {
                spec_parse_records_from(s, fp.1, cur.push(fp.0), recs)
            } else {
                // a parsed field always consumes at least one character
                arbitrary()
            },
        }
    }
}

/// The whole parse: header mode only when `<EOH>` occurs somewhere in the
/// input, then the record loop until the end.
pub open spec fn spec_parse_adi(s: Seq<char>) -> Result<FileView, AdifErrorView> {
    if spec_contains_eoh(s) {
        match spec_parse_header(s) {
            Err(e) => Err(e),
            Ok(hp) => match spec_parse_records_from(s, hp.1, Seq::empty(), Seq::empty()) {
                Err(e) => Err(e),
                Ok(recs) => Ok(FileView { header: hp.0, records: recs }),
            },
        }
    } else {
        match spec_parse_records_from(s, 0, Seq::empty(), Seq::empty()) {
            Err(e) => Err(e),
            Ok(recs) => Ok(FileView { header: spec_empty_header(), records: recs }),
        }
    }
}

/// The views of a sequence of records.
pub open spec fn recs_view(rs: Seq<Record>) -> Seq<Seq<FieldView>> {
    Seq::new(rs.len(), |i: int| rs[i]@)
}

// ---------------------------------------------------------------------------
// Facts about the model.
// ---------------------------------------------------------------------------

/// `spec_find_lt` lands on the first `<`, inside bounds.
proof fn lemma_find_lt_spec(s: Seq<char>, i: int)
    requires
        0 <= i <= s.len(),
    ensures
        i <= spec_find_lt(s, i) <= s.len(),
        forall|k: int| i <= k < spec_find_lt(s, i) ==> s[k] != '<',
        spec_find_lt(s, i) < s.len() ==> s[spec_find_lt(s, i)] == '<',
    decreases s.len() - i,
{
    if i < s.len() && s[i] != '<' {
        lemma_find_lt_spec(s, i + 1);
    }
}

/// `spec_skip_to_gt` moves forward and stays inside the input.
proof fn lemma_skip_to_gt_bounds(s: Seq<char>, i: int)
    requires
        0 <= i <= s.len(),
    ensures
        i <= spec_skip_to_gt(s, i) <= s.len(),
        i < s.len() ==> i + 1 <= spec_skip_to_gt(s, i),
    decreases s.len() - i,
{
    if i < s.len() && s[i] != '>' {
        lemma_skip_to_gt_bounds(s, i + 1);
    }
}

/// `spec_name_end` lands on the first `:` or `>`, inside bounds.
proof fn lemma_name_end_spec(s: Seq<char>, i: int)
    requires
        0 <= i <= s.len(),
    ensures
        i <= spec_name_end(s, i) <= s.len(),
        forall|k: int| i <= k < spec_name_end(s, i) ==> s[k] != ':' && s[k] != '>',
        spec_name_end(s, i) < s.len() ==> (s[spec_name_end(s, i)] == ':' || s[spec_name_end(
            s,
            i,
        )] == '>'),
    decreases s.len() - i,
{
    if i < s.len() && !(s[i] == ':' || s[i] == '>') {
        lemma_name_end_spec(s, i + 1);
    }
}

/// `spec_digits_end` lands on the first non-digit, inside bounds.
proof fn lemma_digits_end_spec(s: Seq<char>, i: int)
    requires
        0 <= i <= s.len(),
    ensures
        i <= spec_digits_end(s, i) <= s.len(),
        forall|k: int| i <= k < spec_digits_end(s, i) ==> spec_is_digit(s[k]),
        spec_digits_end(s, i) < s.len() ==> !spec_is_digit(s[spec_digits_end(s, i)]),
    decreases s.len() - i,
{
    if i < s.len() && spec_is_digit(s[i]) {
        lemma_digits_end_spec(s, i + 1);
    }
}

/// A run of digits denotes a non-negative number.
proof fn lemma_digits_value_nonneg(digits: Seq<char>)
    requires
        forall|k: int| 0 <= k < digits.len() ==> spec_is_digit(digits[k]),
    ensures
        spec_digits_value(digits) >= 0,
    decreases digits.len(),
{
    if digits.len() > 0 {
        lemma_digits_value_nonneg(digits.drop_last());
    }
}

/// A successful field parse ends past where it began and inside the input.
pub proof fn lemma_parse_field_ok_bounds(s: Seq<char>, pos: int)
    ensures
        match spec_parse_field(s, pos) {
            Ok(fp) => pos < fp.1 <= s.len(),
            Err(_) => true,
        },
{
    if 0 <= pos < s.len() && s[pos] == '<' {
        lemma_name_end_spec(s, pos + 1);
        let name_end = spec_name_end(s, pos + 1);
        if name_end < s.len() && s[name_end] == ':' {
            lemma_digits_end_spec(s, name_end + 1);
            let digits_end = spec_digits_end(s, name_end + 1);
            lemma_digits_value_nonneg(s.subrange(name_end + 1, digits_end));
        }
    }
}

/// Positions that hold no `<` neither produce fields nor end the header
/// loop: the loop result is decided further on.
proof fn lemma_header_fields_skip(s: Seq<char>, i: int, j: int, h: HeaderView)
    requires
        0 <= i <= j <= s.len(),
        forall|k: int| i <= k < j ==> s[k] != '<',
    ensures
        spec_parse_header_fields(s, i, h) == spec_parse_header_fields(s, j, h),
    decreases j - i,
{
    if i < j {
        lemma_header_fields_skip(s, i + 1, j, h);
    }
}

/// The record-loop twin of `lemma_header_fields_skip`.
proof fn lemma_records_skip(s: Seq<char>, i: int, j: int, cur: Seq<FieldView>, recs: Seq<Seq<FieldView>>)
    requires
        0 <= i <= j <= s.len(),
        forall|k: int| i <= k < j ==> s[k] != '<',
    ensures
        spec_parse_records_from(s, i, cur, recs) == spec_parse_records_from(s, j, cur, recs),
    decreases j - i,
{
    if i < j {
        lemma_records_skip(s, i + 1, j, cur, recs);
    }
}

/// A successful header loop ends inside the input.
proof fn lemma_header_fields_ok_bounds(s: Seq<char>, pos: int, h: HeaderView)
    requires
        0 <= pos <= s.len(),
    ensures
        match spec_parse_header_fields(s, pos, h) {
            Ok(hp) => 0 <= hp.1 <= s.len(),
            Err(_) => true,
        },
    decreases s.len() - pos,
{
    if pos >= s.len() {
    } else if s[pos] != '<' {
        lemma_header_fields_ok_bounds(s, pos + 1, h);
    } else if spec_tag_at(s, pos, "EOH"@) {
        lemma_skip_to_gt_bounds(s, pos + 1 + "EOH"@.len());
    } else {
        match spec_parse_field(s, pos) {
            Err(_) => {}
            Ok(fp) => {
                lemma_parse_field_ok_bounds(s, pos);
                lemma_header_fields_ok_bounds(s, fp.1, spec_header_add(h, fp.0));
            }
        }
    }
}

// ---------------------------------------------------------------------------
// The executable parser.
// ---------------------------------------------------------------------------

/// Parse one input text into a document.
///
/// The result is exactly what the grammar model `spec_parse_adi` assigns
/// to the input's characters, success and failure alike.
pub fn parse_adi(input: &str) -> (r: Result<AdifFile, AdifError>)
    ensures
        match spec_parse_adi(input@) {
            Ok(fv) => r matches Ok(f) && f@ == fv,
            Err(ev) => r matches Err(e) && e@ == ev,
        },
{
    let mut parser = AdiParser::new(input);
    parser.parse()
}

/// Internal parser state: the input characters and a cursor.
struct AdiParser {
    input: Vec<char>,
    pos: usize,
}

impl AdiParser {
    /// A parser at the start of the input.
    fn new(input: &str) -> (r: AdiParser)
        ensures
            r.input@ == input@,
            r.pos == 0,
    {
        AdiParser { input: crate::chars::to_char_vec(input), pos: 0 }
    }

    /// The character under the cursor, if any.
    fn peek_char(&self) -> (r: Option<char>)
        ensures
            r == (if self.pos < self.input@.len() {
                Some(self.input@[self.pos as int])
            } else {
                Option::<char>::None
            }),
    {
        if self.pos < self.input.len() {
            Some(self.input[self.pos])
        } else {
            None
        }
    }

    /// Advance the cursor past whitespace.
    fn skip_whitespace_and_newlines(&mut self)
        requires
            old(self).pos <= old(self).input@.len(),
        ensures
            final(self).input@ == old(self).input@,
            old(self).pos <= final(self).pos <= final(self).input@.len(),
            forall|k: int|
                old(self).pos <= k < final(self).pos ==> spec_is_space(final(self).input@[k]),
            final(self).pos < final(self).input@.len() ==> !spec_is_space(
                final(self).input@[final(self).pos as int],
            ),
    {
        while self.pos < self.input.len() && is_space(self.input[self.pos])
            invariant
                old(self).pos <= self.pos <= self.input@.len(),
                self.input@ == old(self).input@,
                forall|k: int| old(self).pos <= k < self.pos ==> spec_is_space(self.input@[k]),
            decreases self.input@.len() - self.pos,
        {
            self.pos = self.pos + 1;
        }
    }

    /// The index of the next `<` at or after the cursor, if any.
    fn find_next_tag_start(&self) -> (r: Option<usize>)
        requires
            self.pos <= self.input@.len(),
        ensures
            ({
                let e = spec_find_lt(self.input@, self.pos as int);
                match r {
                    Some(j) => j == e && j < self.input@.len(),
                    None => e == self.input@.len(),
                }
            }),
    {
        let ghost s = self.input@;
        let mut i: usize = self.pos;
        while i < self.input.len() && self.input[i] != '<'
            invariant
                self.pos <= i <= s.len(),
                self.input@ == s,
                forall|k: int| self.pos <= k < i ==> s[k] != '<',
            decreases s.len() - i,
        {
            i = i + 1;
        }
        proof {
            lemma_find_lt_spec(s, self.pos as int);
            let e = spec_find_lt(s, self.pos as int);
            assert(e == i);
        }
        if i < self.input.len() {
            Some(i)
        } else {
            None
        }
    }

    /// Whether the cursor stands on `<TAG>` or `<TAG:`, case-insensitively.
    fn check_tag(&self, tag_name: &str) -> (b: bool)
        requires
            self.pos <= self.input@.len(),
        ensures
            b == spec_tag_at(self.input@, self.pos as int, tag_name@),
    {
        let ghost s = self.input@;
        let n = self.input.len();
        let tag_len = tag_name.unicode_len();
        if n - self.pos < 2 || n - self.pos - 2 < tag_len {
            return false;
        }
        if self.input[self.pos] != '<' {
            return false;
        }
        let mut j: usize = 0;
        while j < tag_len
            invariant
                j <= tag_len,
                tag_len == tag_name@.len(),
                n == s.len(),
                self.pos + tag_len + 2 <= n,
                self.input@ == s,
                forall|k: int|
                    0 <= k < j ==> spec_upper_char(s[self.pos + 1 + k]) == tag_name@[k],
            decreases tag_len - j,
        {
            if upper_char(self.input[self.pos + 1 + j]) != tag_name.get_char(j) {
                return false;
            }
            j = j + 1;
        }
        let after = self.input[self.pos + 1 + tag_len];
        after == '>' || after == ':'
    }

    /// Consume a recognized `<TAG...>` construct: the `<`, the name, then
    /// everything up to and including the next `>`.
    fn skip_tag(&mut self, tag_name: &str) -> (r: Result<(), AdifError>)
        requires
            spec_tag_at(old(self).input@, old(self).pos as int, tag_name@),
        ensures
            final(self).input@ == old(self).input@,
            r is Ok,
            final(self).pos == spec_skip_to_gt(
                old(self).input@,
                old(self).pos + 1 + tag_name@.len(),
            ),
            old(self).pos < final(self).pos <= final(self).input@.len(),
    {
        let ghost s = self.input@;
        if !(self.pos < self.input.len() && self.input[self.pos] == '<') {
            return Err(
                AdifError::ParseError {
                    position: self.pos,
                    message: String::from_str("Expected '<' at start of tag"),
                },
            );
        }
        self.pos = self.pos + 1;
        self.pos = self.pos + tag_name.unicode_len();
        let ghost start = self.pos as int;
        proof {
            lemma_skip_to_gt_bounds(s, start);
        }
        loop
            invariant_except_break
                start <= self.pos <= s.len(),
                self.input@ == s,
                spec_skip_to_gt(s, start) == spec_skip_to_gt(s, self.pos as int),
            ensures
                self.input@ == s,
                start <= self.pos <= s.len(),
                self.pos == spec_skip_to_gt(s, start),
            decreases s.len() - self.pos,
        {
            if self.pos >= self.input.len() {
                break;
            }
            let c = self.input[self.pos];
            self.pos = self.pos + 1;
            if c == '>' {
                break;
            }
        }
        Ok(())
    }

    /// Whether the input holds `<EOH>` anywhere, case-insensitively.
    fn contains_eoh(&self) -> (b: bool)
        ensures
            b == spec_contains_eoh(self.input@),
    {
        let ghost s = self.input@;
        let n = self.input.len();
        if n < 5 {
            proof {
                assert(forall|i: int| !spec_eoh_at(s, i));
            }
            return false;
        }
        let mut i: usize = 0;
        while i <= n - 5
            invariant
                n == s.len(),
                5 <= n,
                i <= n,
                self.input@ == s,
                forall|j: int| 0 <= j < i ==> !spec_eoh_at(s, j),
            decreases n - i,
        {
            if self.input[i] == '<' && upper_char(self.input[i + 1]) == 'E' && upper_char(
                self.input[i + 2],
            ) == 'O' && upper_char(self.input[i + 3]) == 'H' && self.input[i + 4] == '>' {
                proof {
                    assert(spec_eoh_at(s, i as int));
                }
                return true;
            }
            i = i + 1;
        }
        proof {
            assert(forall|j: int| !spec_eoh_at(s, j));
        }
        false
    }

    /// Parse one data specifier at the cursor.
    fn parse_field(&mut self) -> (r: Result<Field, AdifError>)
        requires
            old(self).pos <= old(self).input@.len(),
        ensures
            final(self).input@ == old(self).input@,
            final(self).pos <= final(self).input@.len(),
            match spec_parse_field(old(self).input@, old(self).pos as int) {
                Ok(fp) => r matches Ok(f) && f@ == fp.0 && final(self).pos == fp.1
                    && old(self).pos < final(self).pos,
                Err(ev) => r matches Err(e) && e@ == ev,
            },
    {
        let ghost s = self.input@;
        let ghost pos0 = self.pos as int;
        let start_pos = self.pos;

        // Expect '<'
        let at_lt = match self.peek_char() {
            Some(c) => c == '<',
            None => false,
        };
        if !at_lt {
            return Err(
                AdifError::ParseError {
                    position: self.pos,
                    message: String::from_str("Expected '<' at start of field"),
                },
            );
        }
        proof {
            broadcast use vstd::std_specs::vec::axiom_spec_len;

            assert(self.pos < self.input.len());
        }
        self.pos = self.pos + 1;

        // Field name, uppercased, up to ':' or '>'
        let name_start = self.pos;
        let mut name = String::new();
        while self.pos < self.input.len() && self.input[self.pos] != ':' && self.input[self.pos]
            != '>'
            invariant
                name_start == pos0 + 1,
                name_start <= self.pos <= s.len(),
                self.input@ == s,
                forall|k: int| name_start <= k < self.pos ==> s[k] != ':' && s[k] != '>',
                name@ =~= spec_upper_seq(s.subrange(name_start as int, self.pos as int)),
            decreases s.len() - self.pos,
        {
            push_char(&mut name, upper_char(self.input[self.pos]));
            self.pos = self.pos + 1;
            proof {
                assert(name@ =~= spec_upper_seq(s.subrange(name_start as int, self.pos as int)));
            }
        }
        let ghost name_end = spec_name_end(s, pos0 + 1);
        proof {
            lemma_name_end_spec(s, pos0 + 1);
            assert(name_end == self.pos as int);
        }

        if name.as_str().unicode_len() == 0 {
            return Err(
                AdifError::InvalidDataSpecifier {
                    position: start_pos,
                    message: String::from_str("Empty field name"),
                },
            );
        }

        // Marker tag: no length clause at all
        if self.pos < self.input.len() && self.input[self.pos] == '>' {
            self.pos = self.pos + 1;
            let f = Field::new(name.as_str(), "");
            proof {
                lemma_upper_seq_idempotent(s.subrange(pos0 + 1, name_end));
                reveal_strlit("");
                assert(""@ =~= Seq::<char>::empty());
            }
            return Ok(f);
        }

        // Expect ':'
        if !(self.pos < self.input.len() && self.input[self.pos] == ':') {
            return Err(
                AdifError::InvalidDataSpecifier {
                    position: self.pos,
                    message: String::from_str("Expected ':' after field name"),
                },
            );
        }
        self.pos = self.pos + 1;

        // The declared length: a run of decimal digits
        let digits_start = self.pos;
        let mut length: usize = 0;
        let mut overflow: bool = false;
        while self.pos < self.input.len() && is_digit(self.input[self.pos])
            invariant
                digits_start == name_end + 1,
                digits_start <= self.pos <= s.len(),
                self.input@ == s,
                forall|k: int| digits_start <= k < self.pos ==> spec_is_digit(s[k]),
                !overflow ==> length as int == spec_digits_value(
                    s.subrange(digits_start as int, self.pos as int),
                ),
                overflow ==> spec_digits_value(s.subrange(digits_start as int, self.pos as int))
                    > usize::MAX as int,
            decreases s.len() - self.pos,
        {
            let c = self.input[self.pos];
            let d: usize = ((c as u32) - ('0' as u32)) as usize;
            let ghost pre = s.subrange(digits_start as int, self.pos as int);
            let ghost post = s.subrange(digits_start as int, self.pos as int + 1);
            proof {
                assert(post.drop_last() =~= pre);
                assert(post.last() == s[self.pos as int]);
            }
            if overflow || length > (usize::MAX - d) / 10 {
                proof {
                    if !overflow {
                        let m = usize::MAX as int;
                        vstd::arithmetic::div_mod::lemma_fundamental_div_mod(m - d, 10);
                        assert(length as int * 10 + d > m) by (nonlinear_arith)
                            requires
                                length as int > ((m - d) / 10),
                                m - d == 10 * ((m - d) / 10) + (m - d) % 10,
                                0 <= (m - d) % 10 < 10,
                        ;
                    }
                }
                overflow = true;
            } else {
                proof {
                    let m = usize::MAX as int;
                    vstd::arithmetic::div_mod::lemma_fundamental_div_mod(m - d, 10);
                    assert(length as int * 10 + d <= m) by (nonlinear_arith)
                        requires
                            length as int <= ((m - d) / 10),
                            m - d == 10 * ((m - d) / 10) + (m - d) % 10,
                            0 <= (m - d) % 10 < 10,
                    ;
                }
                length = length * 10 + d;
            }
            self.pos = self.pos + 1;
        }
        let ghost digits_end = spec_digits_end(s, digits_start as int);
        proof {
            lemma_digits_end_spec(s, digits_start as int);
            assert(digits_end == self.pos as int);
        }

        if digits_start == self.pos || overflow {
            return Err(
                AdifError::InvalidDataSpecifier {
                    position: digits_start,
                    message: String::from_str("Invalid length"),
                },
            );
        }

        // Optional type indicator
        let data_type: DataType;
        if self.pos < self.input.len() && self.input[self.pos] == ':' {
            self.pos = self.pos + 1;
            if self.pos >= self.input.len() {
                return Err(AdifError::UnexpectedEof(self.pos));
            }
            let type_char = self.input[self.pos];
            self.pos = self.pos + 1;
            data_type = match DataType::from_char(type_char) {
                Some(dt) => dt,
                None => DataType::Unspecified,
            };
        } else {
            data_type = DataType::Unspecified;
        }

        // Expect '>'
        if !(self.pos < self.input.len() && self.input[self.pos] == '>') {
            return Err(
                AdifError::InvalidDataSpecifier {
                    position: self.pos,
                    message: String::from_str("Expected '>' to close tag"),
                },
            );
        }
        self.pos = self.pos + 1;

        // The value: exactly `length` characters
        if length > self.input.len() - self.pos {
            return Err(
                AdifError::InvalidFieldLength {
                    position: self.pos,
                    expected: length,
                    found: self.input.len() - self.pos,
                },
            );
        }
        let value = string_from_range(&self.input, self.pos, self.pos + length);
        self.pos = self.pos + length;

        let f = Field::with_type(name.as_str(), data_type, value.as_str());
        proof {
            lemma_upper_seq_idempotent(s.subrange(pos0 + 1, name_end));
        }
        Ok(f)
    }

    /// Parse the header: preamble, then fields until `<EOH>`.
    fn parse_header(&mut self) -> (r: Result<AdifHeader, AdifError>)
        requires
            old(self).pos == 0,
        ensures
            final(self).input@ == old(self).input@,
            final(self).pos <= final(self).input@.len(),
            match spec_parse_header(old(self).input@) {
                Ok(hp) => r matches Ok(h) && h@ == hp.0 && final(self).pos == hp.1,
                Err(ev) => r matches Err(e) && e@ == ev,
            },
    {
        let ghost s = self.input@;
        let mut header: AdifHeader = Default::default();

        // Preamble: everything before the first tag
        let preamble_end = match self.find_next_tag_start() {
            Some(i) => i,
            None => self.input.len(),
        };
        header.preamble = string_from_range(&self.input, 0, preamble_end);
        self.pos = preamble_end;
        let ghost h0 = HeaderView {
            adif_version: None,
            program_id: None,
            program_version: None,
            created_timestamp: None,
            fields: Seq::empty(),
            preamble: s.subrange(0, preamble_end as int),
        };
        proof {
            assert(header@ =~= h0);
            assert(spec_parse_header(s) == spec_parse_header_fields(s, preamble_end as int, h0));
        }

        loop
            invariant_except_break
                self.pos <= self.input.len(),
                self.input@ == s,
                s == old(self).input@,
                spec_parse_header(s) == spec_parse_header_fields(s, self.pos as int, header@),
            ensures
                self.input@ == s,
                s == old(self).input@,
                self.pos <= s.len(),
                spec_parse_header(s) == Ok::<(HeaderView, int), AdifErrorView>(
                    (header@, self.pos as int),
                ),
            decreases s.len() - self.pos,
        {
            let ghost p1 = self.pos as int;
            self.skip_whitespace_and_newlines();
            proof {
                assert(forall|k: int| p1 <= k < self.pos as int ==> s[k] != '<');
                lemma_header_fields_skip(s, p1, self.pos as int, header@);
            }

            if self.pos >= self.input.len() {
                break;
            }

            if self.input[self.pos] != '<' {
                self.pos = self.pos + 1;
                continue;
            }

            if self.check_tag("EOH") {
                let ghost p2 = self.pos as int;
                let result = self.skip_tag("EOH");
                proof {
                    assert(result is Ok);
                    assert(spec_parse_header_fields(s, p2, header@) matches Ok(hp) && hp == (
                        header@,
                        self.pos as int,
                    ));
                }
                break;
            }

            let ghost p3 = self.pos as int;
            match self.parse_field() {
                Err(e) => {
                    return Err(e);
                }
                Ok(field) => {
                    let ghost hv = header@;
                    proof {
                        reveal_strlit("ADIF_VER");
                        reveal_strlit("PROGRAMID");
                        reveal_strlit("PROGRAMVERSION");
                        reveal_strlit("CREATED_TIMESTAMP");
                    }
                    if str_eq(field.name.as_str(), "ADIF_VER") {
                        header.adif_version = Some(field.value.clone());
                    } else if str_eq(field.name.as_str(), "PROGRAMID") {
                        header.program_id = Some(field.value.clone());
                    } else if str_eq(field.name.as_str(), "PROGRAMVERSION") {
                        header.program_version = Some(field.value.clone());
                    } else if str_eq(field.name.as_str(), "CREATED_TIMESTAMP") {
                        header.created_timestamp = Some(field.value.clone());
                    }
                    header.fields.push(field);
                    proof {
                        assert(header@ =~= spec_header_add(hv, field@));
                        lemma_parse_field_ok_bounds(s, p3);
                    }
                }
            }
        }
        Ok(header)
    }

    /// Parse records until the end of the input or `<EOF>`.
    fn parse_records(&mut self) -> (r: Result<Vec<Record>, AdifError>)
        requires
            old(self).pos <= old(self).input@.len(),
        ensures
            final(self).input@ == old(self).input@,
            match spec_parse_records_from(
                old(self).input@,
                old(self).pos as int,
                Seq::empty(),
                Seq::empty(),
            ) {
                Ok(rvs) => r matches Ok(rs) && recs_view(rs@) == rvs,
                Err(ev) => r matches Err(e) && e@ == ev,
            },
    {
        let ghost s = self.input@;
        let ghost pos0 = self.pos as int;
        let mut records: Vec<Record> = Vec::new();
        let mut current_record = Record::new();
        proof {
            assert(recs_view(records@) =~= Seq::<Seq<FieldView>>::empty());
        }

        loop
            invariant_except_break
                self.pos <= self.input.len(),
                self.input@ == s,
                s == old(self).input@,
                pos0 == old(self).pos as int,
                spec_parse_records_from(s, pos0, Seq::empty(), Seq::empty())
                    == spec_parse_records_from(
                    s,
                    self.pos as int,
                    current_record@,
                    recs_view(records@),
                ),
            ensures
                self.input@ == s,
                s == old(self).input@,
                pos0 == old(self).pos as int,
                spec_parse_records_from(s, pos0, Seq::empty(), Seq::empty()) == Ok::<
                    Seq<Seq<FieldView>>,
                    AdifErrorView,
                >(spec_close_records(recs_view(records@), current_record@)),
            decreases s.len() - self.pos,
        {
            let ghost p1 = self.pos as int;
            self.skip_whitespace_and_newlines();
            proof {
                assert(forall|k: int| p1 <= k < self.pos as int ==> s[k] != '<');
                lemma_records_skip(s, p1, self.pos as int, current_record@, recs_view(records@));
            }

            if self.pos >= self.input.len() {
                break;
            }

            if self.input[self.pos] != '<' {
                self.pos = self.pos + 1;
                continue;
            }

            // End of record: close the current record if it has fields
            if self.check_tag("EOR") {
                let result = self.skip_tag("EOR");
                proof {
                    assert(result is Ok);
                }
                if current_record.fields.len() > 0 {
                    let ghost cur = current_record@;
                    let ghost recs = recs_view(records@);
                    records.push(current_record);
                    current_record = Record::new();
                    proof {
                        assert(recs_view(records@) =~= recs.push(cur));
                    }
                }
                continue;
            }

            // End of file: everything after is ignored
            if self.check_tag("EOF") {
                let ghost p2 = self.pos as int;
                let result = self.skip_tag("EOF");
                proof {
                    assert(result is Ok);
                    assert(spec_parse_records_from(s, p2, current_record@, recs_view(records@))
                        == Ok::<Seq<Seq<FieldView>>, AdifErrorView>(
                        spec_close_records(recs_view(records@), current_record@),
                    ));
                }
                break;
            }

            let ghost p3 = self.pos as int;
            match self.parse_field() {
                Err(e) => {
                    return Err(e);
                }
                Ok(field) => {
                    let ghost cur = current_record@;
                    current_record.add_field(field);
                    proof {
                        assert(current_record@ =~= cur.push(field@));
                        lemma_parse_field_ok_bounds(s, p3);
                    }
                }
            }
        }

        // A trailing record with no closing marker is still kept
        if current_record.fields.len() > 0 {
            let ghost recs = recs_view(records@);
            let ghost cur = current_record@;
            records.push(current_record);
            proof {
                assert(recs_view(records@) =~= recs.push(cur));
            }
        }
        Ok(records)
    }

    /// Parse the whole input: header mode only when `<EOH>` occurs, then
    /// records.
    fn parse(&mut self) -> (r: Result<AdifFile, AdifError>)
        requires
            old(self).pos == 0,
        ensures
            match spec_parse_adi(old(self).input@) {
                Ok(fv) => r matches Ok(f) && f@ == fv,
                Err(ev) => r matches Err(e) && e@ == ev,
            },
    {
        let ghost s = self.input@;
        let mut file = AdifFile::new();

        let has_header = self.contains_eoh();
        if has_header {
            match self.parse_header() {
                Ok(h) => {
                    file.header = h;
                }
                Err(e) => {
                    return Err(e);
                }
            }
        }

        match self.parse_records() {
            Ok(rs) => {
                file.records = rs;
            }
            Err(e) => {
                return Err(e);
            }
        }

        proof {
            match spec_parse_adi(s) {
                Ok(fv) => {
                    assert(file@ =~= fv);
                }
                Err(_) => {}
            }
        }
        Ok(file)
    }
}

// ---------------------------------------------------------------------------
// Laws.
// ---------------------------------------------------------------------------

/// Law: a well-formed data specifier `<NAME:LENGTH>VALUE`, where the value
/// has exactly the declared number of characters, parses to the field with
/// the uppercased name, no declared type, and exactly that value.
#[verifier::rlimit(60)]
pub proof fn lemma_well_formed_field(name: Seq<char>, digits: Seq<char>, value: Seq<char>)
    requires
        name.len() > 0,
        forall|j: int| 0 <= j < name.len() ==> name[j] != ':' && name[j] != '>',
        digits.len() > 0,
        forall|j: int| 0 <= j < digits.len() ==> spec_is_digit(digits[j]),
        spec_digits_value(digits) == value.len(),
        value.len() <= usize::MAX,
    ensures
        ({
            let s = seq!['<'] + name + seq![':'] + digits + seq!['>'] + value;
            spec_parse_field(s, 0) == Ok::<(FieldView, int), AdifErrorView>(
                (
                    FieldView {
                        name: spec_upper_seq(name),
                        data_type: DataType::Unspecified,
                        value,
                    },
                    s.len() as int,
                ),
            )
        }),
{
    let s = seq!['<'] + name + seq![':'] + digits + seq!['>'] + value;
    let n = name.len() as int;
    let d = digits.len() as int;
    assert(s.len() == 3 + n + d + value.len());
    assert(s[0] == '<');
    assert(forall|k: int| 1 <= k < 1 + n ==> s[k] == name[k - 1]);
    assert(s[1 + n] == ':');
    assert(forall|k: int| 2 + n <= k < 2 + n + d ==> s[k] == digits[k - 2 - n]);
    assert(s[2 + n + d] == '>');
    assert(forall|k: int| 3 + n + d <= k < s.len() ==> s[k] == value[k - 3 - n - d]);

    lemma_name_end_spec(s, 1);
    let name_end = spec_name_end(s, 1);
    assert(name_end == 1 + n) by {
        if name_end < 1 + n {
            assert(s[name_end] == name[name_end - 1]);
        }
        if name_end > 1 + n {
            assert(s[1 + n] != ':' && s[1 + n] != '>');
        }
    }
    assert(s.subrange(1, 1 + n) =~= name);

    lemma_digits_end_spec(s, 2 + n);
    let digits_end = spec_digits_end(s, 2 + n);
    assert(digits_end == 2 + n + d) by {
        if digits_end < 2 + n + d {
            assert(s[digits_end] == digits[digits_end - 2 - n]);
        }
        if digits_end > 2 + n + d {
            assert(spec_is_digit(s[2 + n + d]));
            assert(s[2 + n + d] == '>');
        }
    }
    assert(s.subrange(2 + n, 2 + n + d) =~= digits);

    assert(spec_upper_seq(name).len() == name.len());
    assert(s[2 + n + d] == '>' && s[2 + n + d] != ':');
    assert(s.subrange(3 + n + d, 3 + n + d + value.len() as int) =~= value);
}

/// Law: a parsed field's name is its own uppercase image; the case of the
/// input name leaves no trace in the document.
pub proof fn lemma_parsed_field_name_uppercase(s: Seq<char>, pos: int)
    ensures
        match spec_parse_field(s, pos) {
            Ok(fp) => fp.0.name == spec_upper_seq(fp.0.name),
            Err(_) => true,
        },
{
    if 0 <= pos < s.len() && s[pos] == '<' {
        let name_end = spec_name_end(s, pos + 1);
        lemma_upper_seq_idempotent(s.subrange(pos + 1, name_end));
    }
}

/// All records the record loop can return are non-empty, provided the ones
/// already accumulated are.
proof fn lemma_records_from_nonempty(
    s: Seq<char>,
    pos: int,
    cur: Seq<FieldView>,
    recs: Seq<Seq<FieldView>>,
)
    requires
        0 <= pos <= s.len(),
        forall|i: int| 0 <= i < recs.len() ==> recs[i].len() > 0,
    ensures
        match spec_parse_records_from(s, pos, cur, recs) {
            Ok(rvs) => forall|i: int| 0 <= i < rvs.len() ==> rvs[i].len() > 0,
            Err(_) => true,
        },
    decreases s.len() - pos,
{
    if pos >= s.len() {
    } else if s[pos] != '<' {
        lemma_records_from_nonempty(s, pos + 1, cur, recs);
    } else if spec_tag_at(s, pos, "EOR"@) {
        lemma_skip_to_gt_bounds(s, pos + 1 + "EOR"@.len());
        let p2 = spec_skip_to_gt(s, pos + 1 + "EOR"@.len());
        if cur.len() > 0 {
            lemma_records_from_nonempty(s, p2, Seq::empty(), recs.push(cur));
        } else {
            lemma_records_from_nonempty(s, p2, cur, recs);
        }
    } else if spec_tag_at(s, pos, "EOF"@) {
    } else {
        match spec_parse_field(s, pos) {
            Err(_) => {}
            Ok(fp) => {
                lemma_parse_field_ok_bounds(s, pos);
                lemma_records_from_nonempty(s, fp.1, cur.push(fp.0), recs);
            }
        }
    }
}

/// Law: an end-of-record marker with no fields accumulated produces no
/// record; a parsed document never holds an empty record.
pub proof fn lemma_no_empty_records(s: Seq<char>)
    ensures
        match spec_parse_adi(s) {
            Ok(fv) => forall|i: int| 0 <= i < fv.records.len() ==> fv.records[i].len() > 0,
            Err(_) => true,
        },
{
    if spec_contains_eoh(s) {
        lemma_find_lt_spec(s, 0);
        let pe = spec_find_lt(s, 0);
        let h0 = HeaderView {
            adif_version: None,
            program_id: None,
            program_version: None,
            created_timestamp: None,
            fields: Seq::empty(),
            preamble: s.subrange(0, pe),
        };
        lemma_header_fields_ok_bounds(s, pe, h0);
        match spec_parse_header_fields(s, pe, h0) {
            Ok(hp) => {
                lemma_records_from_nonempty(s, hp.1, Seq::empty(), Seq::empty());
            }
            Err(_) => {}
        }
    } else {
        lemma_records_from_nonempty(s, 0, Seq::empty(), Seq::empty());
    }
}

/// Law: `<EOF>` truncates processing. On an `<EOF>` tag the record loop
/// returns exactly the records gathered so far, the in-progress one
/// closed; the result names nothing of the input past the tag, so
/// whatever stands there is ignored.
pub proof fn lemma_eof_truncates(
    s: Seq<char>,
    pos: int,
    cur: Seq<FieldView>,
    recs: Seq<Seq<FieldView>>,
)
    requires
        0 <= pos <= s.len(),
        spec_tag_at(s, pos, "EOF"@),
    ensures
        spec_parse_records_from(s, pos, cur, recs) == Ok::<Seq<Seq<FieldView>>, AdifErrorView>(
            spec_close_records(recs, cur),
        ),
{
    reveal_strlit("EOF");
    reveal_strlit("EOR");
    // an EOF tag is no EOR tag: the third letter differs
    assert(spec_upper_char(s[pos + 1 + 2]) == "EOF"@[2]);
    if spec_tag_at(s, pos, "EOR"@) {
        assert(spec_upper_char(s[pos + 1 + 2]) == "EOR"@[2]);
        assert(false);
    }
}

/// Law: a non-empty in-progress record is never dropped: when the record
/// loop reaches the end of the input, or stands on an `<EOF>` tag, the
/// record is emitted as the last one, closing marker or not.
pub proof fn lemma_trailing_record_kept(
    s: Seq<char>,
    pos: int,
    cur: Seq<FieldView>,
    recs: Seq<Seq<FieldView>>,
)
    requires
        0 <= pos <= s.len(),
        cur.len() > 0,
        pos == s.len() || spec_tag_at(s, pos, "EOF"@),
    ensures
        spec_parse_records_from(s, pos, cur, recs) == Ok::<Seq<Seq<FieldView>>, AdifErrorView>(
            recs.push(cur),
        ),
{
    if pos < s.len() {
        lemma_eof_truncates(s, pos, cur, recs);
    }
}

/// Law: when the input holds no `<EOH>` anywhere, header parsing is
/// skipped entirely and the document keeps the default header.
pub proof fn lemma_no_eoh_default_header(s: Seq<char>)
    requires
        !spec_contains_eoh(s),
    ensures
        match spec_parse_adi(s) {
            Ok(fv) => fv.header == spec_empty_header(),
            Err(_) => true,
        },
{
}

} // verus!
