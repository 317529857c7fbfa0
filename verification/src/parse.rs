use crate::record::Record;
use vstd::prelude::*;

verus! {

// ---------------------------------------------------------------------------
// Coordinate text: the decimal-number grammar accepted for latitude and
// longitude fields.  A coordinate literal is an optional sign followed by a
// decimal mantissa (digits, or digits with one point and at least one digit
// somewhere), optionally followed by an exponent marker `e`/`E` with its own
// optionally signed digits.
// ---------------------------------------------------------------------------
pub open spec fn is_dec_digit(c: char) -> bool {
    '0' as u32 <= c as u32 && c as u32 <= '9' as u32
}

pub open spec fn all_dec_digits(s: Seq<char>) -> bool {
    forall|i: int| 0 <= i < s.len() ==> is_dec_digit(#[trigger] s[i])
}

pub open spec fn is_sign(c: char) -> bool {
    c == '+' || c == '-'
}

pub open spec fn strip_sign(s: Seq<char>) -> Seq<char> {
    if s.len() > 0 && is_sign(s[0]) {
        s.drop_first()
    } else {
        s
    }
}

/// Unsigned mantissa: `digits`, `digits . digits*` or `digits* . digits`.
pub open spec fn is_mantissa(t: Seq<char>) -> bool {
    ||| (t.len() > 0 && all_dec_digits(t))
    ||| (t.len() >= 2 && exists|k: int|
        #![auto]
        0 <= k < t.len() && t[k] == '.' && all_dec_digits(t.take(k)) && all_dec_digits(
            t.skip(k + 1),
        ))
}

pub open spec fn is_exp_marker(c: char) -> bool {
    c == 'e' || c == 'E'
}

/// Optionally signed, non-empty digit string (the exponent part).
pub open spec fn is_exponent_digits(t: Seq<char>) -> bool {
    strip_sign(t).len() > 0 && all_dec_digits(strip_sign(t))
}

/// The grammar accepted for a latitude or longitude field.
pub open spec fn is_coordinate_literal(s: Seq<char>) -> bool {
    let t = strip_sign(s);
    ||| is_mantissa(t)
    ||| (exists|j: int|
        #![auto]
        0 <= j < t.len() && is_exp_marker(t[j]) && is_mantissa(t.take(j)) && is_exponent_digits(
            t.skip(j + 1),
        ))
}

/// Every character of a mantissa is a digit or the decimal point.
proof fn lemma_mantissa_chars(t: Seq<char>)
    requires
        is_mantissa(t),
    ensures
        forall|i: int| 0 <= i < t.len() ==> is_dec_digit(#[trigger] t[i]) || t[i] == '.',
{
    if t.len() > 0 && all_dec_digits(t) {
    } else {
        let k = choose|k: int|
            #![auto]
            0 <= k < t.len() && t[k] == '.' && all_dec_digits(t.take(k)) && all_dec_digits(
                t.skip(k + 1),
            );
        assert forall|i: int| 0 <= i < t.len() implies is_dec_digit(#[trigger] t[i]) || t[i]
            == '.' by {
            if i < k {
                assert(t.take(k)[i] == t[i]);
            } else if i > k {
                assert(t.skip(k + 1)[i - k - 1] == t[i]);
            }
        }
    }
}

fn exec_is_dec_digit(c: char) -> (b: bool)
    ensures
        b == is_dec_digit(c),
{
    let u = c as u32;
    ('0' as u32) <= u && u <= ('9' as u32)
}

/// True iff the characters of `s` at positions `from..to` are all digits.
fn all_digits_in(s: &str, from: usize, to: usize) -> (b: bool)
    requires
        from <= to <= s@.len(),
    ensures
        b == all_dec_digits(s@.subrange(from as int, to as int)),
{
    let ghost t = s@.subrange(from as int, to as int);
    let mut i: usize = from;
    while i < to
        invariant
            from <= i <= to <= s@.len(),
            t == s@.subrange(from as int, to as int),
            forall|m: int| 0 <= m < i - from ==> is_dec_digit(#[trigger] t[m]),
        decreases to - i,
    {
        let c = s.get_char(i);
        if !exec_is_dec_digit(c) {
            proof {
                assert(t[i - from] == s@[i as int]);
            }
            return false;
        }
        proof {
            assert(t[i - from] == s@[i as int]);
        }
        i += 1;
    }
    true
}

/// True iff the characters of `s` at positions `from..to` form a mantissa.
fn mantissa_in(s: &str, from: usize, to: usize) -> (b: bool)
    requires
        from <= to <= s@.len(),
    ensures
        b == is_mantissa(s@.subrange(from as int, to as int)),
{
    let ghost t = s@.subrange(from as int, to as int);
    // find the first decimal point
    let mut i: usize = from;
    let mut dot: Option<usize> = None;
    while i < to && dot.is_none()
        invariant
            from <= i <= to <= s@.len(),
            t == s@.subrange(from as int, to as int),
            dot is None ==> forall|m: int| 0 <= m < i - from ==> #[trigger] t[m] != '.',
            dot matches Some(k) ==> from <= k < to && i == k + 1 && t[k - from] == '.' && forall|
                m: int,
            | 0 <= m < k - from ==> #[trigger] t[m] != '.',
        decreases to - i,
    {
        proof {
            assert(t[i - from] == s@[i as int]);
        }
        if s.get_char(i) == '.' {
            dot = Some(i);
        }
        i += 1;
    }
    match dot {
        None => {
            let b = from < to && all_digits_in(s, from, to);
            proof {
                if b {
                    assert(is_mantissa(t));
                } else if is_mantissa(t) {
                    // the second disjunct would give a point where there is none
                    if !(t.len() > 0 && all_dec_digits(t)) {
                        let k = choose|k: int|
                            #![auto]
                            0 <= k < t.len() && t[k] == '.' && all_dec_digits(t.take(k))
                                && all_dec_digits(t.skip(k + 1));
                        assert(t[k] != '.');
                    }
                }
            }
            b
        },
        Some(k) => {
            let b = to - from >= 2 && all_digits_in(s, from, k) && all_digits_in(s, k + 1, to);
            proof {
                let kk = k - from;
                assert(s@.subrange(from as int, k as int) =~= t.take(kk));
                assert(s@.subrange(k + 1 as int, to as int) =~= t.skip(kk + 1));
                if b {
                    assert(is_mantissa(t));
                }
                if !b && is_mantissa(t) {
                    if t.len() > 0 && all_dec_digits(t) {
                        assert(is_dec_digit(t[kk]));
                        assert(false);
                    } else {
                        let k2 = choose|k2: int|
                            #![auto]
                            0 <= k2 < t.len() && t[k2] == '.' && all_dec_digits(t.take(k2))
                                && all_dec_digits(t.skip(k2 + 1));
                        // the witness point is the first point
                        if k2 < kk {
                            assert(t[k2] != '.');
                        } else if k2 > kk {
                            assert(t.take(k2)[kk] == t[kk]);
                            assert(is_dec_digit(t[kk]));
                        }
                        assert(k2 == kk);
                        assert(false);
                    }
                }
            }
            b
        },
    }
}

/// True iff the characters of `s` at positions `from..to` are an optionally
/// signed, non-empty digit string.
fn exponent_digits_in(s: &str, from: usize, to: usize) -> (b: bool)
    requires
        from <= to <= s@.len(),
    ensures
        b == is_exponent_digits(s@.subrange(from as int, to as int)),
{
    let ghost t = s@.subrange(from as int, to as int);
    let start: usize = if from < to {
        let c = s.get_char(from);
        proof {
            assert(t[0] == s@[from as int]);
        }
        if c == '+' || c == '-' {
            from + 1
        } else {
            from
        }
    } else {
        from
    };
    proof {
        assert(strip_sign(t) =~= s@.subrange(start as int, to as int));
    }
    start < to && all_digits_in(s, start, to)
}

/// Checks a latitude or longitude field against the coordinate grammar.
pub fn is_coordinate_text(s: &str) -> (b: bool)
    ensures
        b == is_coordinate_literal(s@),
{
    let n = s.unicode_len();
    let start: usize = if n > 0 {
        let c = s.get_char(0);
        if c == '+' || c == '-' {
            1
        } else {
            0
        }
    } else {
        0
    };
    let ghost t = strip_sign(s@);
    proof {
        assert(t =~= s@.subrange(start as int, n as int));
    }
    // find the first exponent marker
    let mut i: usize = start;
    let mut marker: Option<usize> = None;
    while i < n && marker.is_none()
        invariant
            start <= i <= n,
            n == s@.len(),
            t == s@.subrange(start as int, n as int),
            marker is None ==> forall|m: int|
                0 <= m < i - start ==> !is_exp_marker(#[trigger] t[m]),
            marker matches Some(j) ==> start <= j < n && i == j + 1 && is_exp_marker(t[j - start])
                && forall|m: int| 0 <= m < j - start ==> !is_exp_marker(#[trigger] t[m]),
        decreases n - i,
    {
        let c = s.get_char(i);
        proof {
            assert(t[i - start] == s@[i as int]);
        }
        if c == 'e' || c == 'E' {
            marker = Some(i);
        }
        i += 1;
    }
    match marker {
        None => {
            let b = mantissa_in(s, start, n);
            proof {
                if !b && is_coordinate_literal(s@) {
                    let j = choose|j: int|
                        #![auto]
                        0 <= j < t.len() && is_exp_marker(t[j]) && is_mantissa(t.take(j))
                            && is_exponent_digits(t.skip(j + 1));
                    assert(!is_exp_marker(t[j]));
                }
            }
            b
        },
        Some(j) => {
            let b = mantissa_in(s, start, j) && exponent_digits_in(s, j + 1, n);
            proof {
                let jj = j - start;
                assert(s@.subrange(start as int, j as int) =~= t.take(jj));
                assert(s@.subrange(j + 1 as int, n as int) =~= t.skip(jj + 1));
                if b {
                    assert(is_coordinate_literal(s@));
                }
                if !b && is_coordinate_literal(s@) {
                    if is_mantissa(t) {
                        lemma_mantissa_chars(t);
                        assert(is_dec_digit(t[jj]) || t[jj] == '.');
                        assert(false);
                    } else {
                        let j2 = choose|j2: int|
                            #![auto]
                            0 <= j2 < t.len() && is_exp_marker(t[j2]) && is_mantissa(t.take(j2))
                                && is_exponent_digits(t.skip(j2 + 1));
                        // the witness marker is the first marker
                        if j2 < jj {
                            assert(!is_exp_marker(t[j2]));
                        } else if j2 > jj {
                            lemma_mantissa_chars(t.take(j2));
                            assert(t.take(j2)[jj] == t[jj]);
                            assert(false);
                        }
                        assert(j2 == jj);
                        assert(false);
                    }
                }
            }
            b
        },
    }
}

// ---------------------------------------------------------------------------
// Delimited rows: splitting a string on a separator character, and joining
// the fields back.  A string always splits into at least one field; `join`
// applied to `split` reproduces the string exactly.
// ---------------------------------------------------------------------------
pub open spec fn split_char(s: Seq<char>, sep: char) -> Seq<Seq<char>>
    decreases s.len(),
{
    if s.len() == 0 {
        seq![Seq::<char>::empty()]
    } else if s[0] == sep {
        seq![Seq::<char>::empty()] + split_char(s.drop_first(), sep)
    } else {
        let rest = split_char(s.drop_first(), sep);
        seq![seq![s[0]] + rest[0]] + rest.drop_first()
    }
}

pub open spec fn join_char(fields: Seq<Seq<char>>, sep: char) -> Seq<char>
    decreases fields.len(),
{
    if fields.len() == 0 {
        Seq::<char>::empty()
    } else if fields.len() == 1 {
        fields[0]
    } else {
        fields[0] + seq![sep] + join_char(fields.drop_first(), sep)
    }
}

pub proof fn lemma_split_char_len(s: Seq<char>, sep: char)
    ensures
        split_char(s, sep).len() >= 1,
    decreases s.len(),
{
    if s.len() > 0 {
        lemma_split_char_len(s.drop_first(), sep);
    }
}

/// If the first occurrence of `sep` in `s` is at `i` (or there is none and
/// `i` is the length), the split is the prefix before `i` followed by the
/// split of the rest.
proof fn lemma_split_char_step(s: Seq<char>, sep: char, i: int)
    requires
        0 <= i <= s.len(),
        forall|m: int| 0 <= m < i ==> #[trigger] s[m] != sep,
        i == s.len() || s[i] == sep,
    ensures
        i == s.len() ==> split_char(s, sep) == seq![s],
        i < s.len() ==> split_char(s, sep) == seq![s.take(i)] + split_char(s.skip(i + 1), sep),
    decreases i,
{
    if i == 0 {
        if s.len() == 0 {
            assert(split_char(s, sep) =~~= seq![s]);
        } else {
            lemma_split_char_len(s.drop_first(), sep);
            assert(s.take(0) =~= Seq::<char>::empty());
            assert(s.skip(1) =~= s.drop_first());
        }
    } else {
        let d = s.drop_first();
        lemma_split_char_len(d, sep);
        lemma_split_char_step(d, sep, i - 1);
        if i == s.len() {
            assert(split_char(d, sep) == seq![d]);
            assert(seq![s[0]] + d =~= s);
            assert(split_char(s, sep) =~= seq![s]);
        } else {
            assert(split_char(d, sep) == seq![d.take(i - 1)] + split_char(d.skip(i), sep));
            assert(seq![s[0]] + d.take(i - 1) =~= s.take(i));
            assert(d.skip(i) =~= s.skip(i + 1));
            assert(split_char(s, sep) =~= seq![s.take(i)] + split_char(s.skip(i + 1), sep));
        }
    }
}

/// Joining the fields of a split reproduces the string.
pub proof fn lemma_join_split(s: Seq<char>, sep: char)
    ensures
        join_char(split_char(s, sep), sep) == s,
    decreases s.len(),
{
    if s.len() == 0 {
        assert(join_char(split_char(s, sep), sep) =~= s);
    } else {
        let d = s.drop_first();
        let rest = split_char(d, sep);
        lemma_split_char_len(d, sep);
        lemma_join_split(d, sep);
        if s[0] == sep {
            let fields = seq![Seq::<char>::empty()] + rest;
            assert(fields.drop_first() =~= rest);
            assert(join_char(fields, sep) =~= s);
        } else {
            let fields = seq![seq![s[0]] + rest[0]] + rest.drop_first();
            if rest.len() == 1 {
                assert(join_char(rest, sep) == rest[0]);
                assert(join_char(fields, sep) == seq![s[0]] + rest[0]);
                assert(join_char(fields, sep) =~= s);
            } else {
                assert(fields.drop_first() =~= rest.drop_first());
                assert(join_char(fields, sep) == (seq![s[0]] + rest[0]) + seq![sep] + join_char(
                    rest.drop_first(),
                    sep,
                ));
                assert(join_char(rest, sep) == rest[0] + seq![sep] + join_char(
                    rest.drop_first(),
                    sep,
                ));
                assert(join_char(fields, sep) =~= seq![s[0]] + join_char(rest, sep));
                assert(seq![s[0]] + d =~= s);
            }
        }
    }
}

/// Splits `s` at every occurrence of `sep`.
pub fn split_str(s: &str, sep: char) -> (fields: Vec<String>)
    ensures
        fields@.len() == split_char(s@, sep).len(),
        forall|i: int| 0 <= i < fields@.len() ==> #[trigger] fields@[i]@ == split_char(s@, sep)[i],
{
    let n = s.unicode_len();
    let mut fields: Vec<String> = Vec::new();
    let mut start: usize = 0;
    let mut i: usize = 0;
    proof {
        lemma_split_char_len(s@, sep);
        assert(s@.skip(0) =~= s@);
        assert(fields@.map_values(|f: String| f@) + split_char(s@, sep) =~= split_char(s@, sep));
    }
    while i < n
        invariant
            0 <= start <= i <= n,
            n == s@.len(),
            forall|m: int| start <= m < i ==> #[trigger] s@[m] != sep,
            split_char(s@, sep).len() >= fields@.len() + 1,
            split_char(s@, sep) == fields@.map_values(|f: String| f@) + split_char(
                s@.skip(start as int),
                sep,
            ),
        decreases n - i,
    {
        let c = s.get_char(i);
        if c == sep {
            let field = s.substring_char(start, i).to_owned();
            proof {
                let tail = s@.skip(start as int);
                assert forall|m: int| 0 <= m < i - start implies #[trigger] tail[m] != sep by {
                    assert(tail[m] == s@[start + m]);
                }
                assert(tail[i - start] == sep);
                lemma_split_char_step(tail, sep, i - start);
                lemma_split_char_len(s@.skip(i + 1 as int), sep);
                assert(tail.take(i - start) =~= s@.subrange(start as int, i as int));
                assert(tail.skip(i - start + 1) =~= s@.skip(i + 1 as int));
                assert(fields@.push(field).map_values(|f: String| f@) =~= fields@.map_values(
                    |f: String| f@,
                ).push(field@));
                assert((fields@.map_values(|f: String| f@).push(field@)) + split_char(
                    s@.skip(i + 1 as int),
                    sep,
                ) =~= fields@.map_values(|f: String| f@) + (seq![tail.take(i - start)]
                    + split_char(tail.skip(i - start + 1), sep)));
            }
            fields.push(field);
            start = i + 1;
        }
        i += 1;
    }
    let last = s.substring_char(start, n).to_owned();
    proof {
        let tail = s@.skip(start as int);
        assert forall|m: int| 0 <= m < tail.len() implies #[trigger] tail[m] != sep by {
            assert(tail[m] == s@[start + m]);
        }
        lemma_split_char_step(tail, sep, tail.len() as int);
        assert(tail =~= s@.subrange(start as int, n as int));
        assert(fields@.push(last).map_values(|f: String| f@) =~= fields@.map_values(
            |f: String| f@,
        ).push(last@));
        assert(fields@.map_values(|f: String| f@).push(last@) =~= fields@.map_values(
            |f: String| f@,
        ) + seq![tail]);
    }
    fields.push(last);
    proof {
        let views = fields@.map_values(|f: String| f@);
        assert forall|i: int| 0 <= i < fields@.len() implies #[trigger] fields@[i]@ == split_char(
            s@,
            sep,
        )[i] by {
            assert(views[i] == fields@[i]@);
        }
    }
    fields
}

// ---------------------------------------------------------------------------
// Rows and records.  A row is nine `;`-separated fields in fixed order:
// city, street, street number, zipcode, urban unit, old unit, district,
// latitude, longitude.  The first row that is malformed aborts the batch.
// ---------------------------------------------------------------------------

/// Why a single row was rejected.
#[derive(Clone, Copy, Debug, PartialEq, Eq, Structural)]
pub enum RowError {
    /// The row does not have exactly nine fields.
    WrongFieldCount { found: usize },
    /// The latitude field is not a decimal number.
    InvalidLatitude,
    /// The longitude field is not a decimal number.
    InvalidLongitude,
}

/// A malformed row, and which row it was.
#[derive(Clone, Copy, Debug, PartialEq, Eq, Structural)]
pub struct ParseError {
    pub row: usize,
    pub error: RowError,
}

/// A row is well-formed when it has exactly nine fields and both coordinate
/// fields are decimal numbers.
pub open spec fn row_ok(row: Seq<char>) -> bool {
    let fs = split_char(row, ';');
    fs.len() == 9 && is_coordinate_literal(fs[7]) && is_coordinate_literal(fs[8])
}

/// The error reported for a malformed row: the field count is checked first,
/// then the latitude, then the longitude.
pub open spec fn row_error(row: Seq<char>) -> RowError {
    let fs = split_char(row, ';');
    if fs.len() != 9 {
        RowError::WrongFieldCount { found: fs.len() as usize }
    } else if !is_coordinate_literal(fs[7]) {
        RowError::InvalidLatitude
    } else {
        RowError::InvalidLongitude
    }
}

/// `rec` is the record parsed from `row`: the nine fields in order, with the
/// computed fields still at their defaults.
pub open spec fn is_parsed_record(row: Seq<char>, rec: Record) -> bool {
    let fs = split_char(row, ';');
    &&& fs.len() == 9
    &&& rec.city@ == fs[0]
    &&& rec.street@ == fs[1]
    &&& rec.street_number@ == fs[2]
    &&& rec.zipcode@ == fs[3]
    &&& rec.urban_unit@ == fs[4]
    &&& rec.old_unit@ == fs[5]
    &&& rec.district@ == fs[6]
    &&& rec.latitude@ == fs[7]
    &&& rec.longitude@ == fs[8]
    &&& rec.distance@ == seq!['0']
    &&& rec.angle@ == seq!['0']
    &&& rec.distance_key == 0
}

/// Parses one row into a record.  Returns the parsed record exactly when the
/// row is well-formed, and otherwise the error for its first defect.
pub fn parse_record(row: &str) -> (r: Result<Record, RowError>)
    ensures
        r is Ok <==> row_ok(row@),
        r matches Ok(rec) ==> is_parsed_record(row@, rec) && rec.coordinates_valid(),
        r matches Err(e) ==> e == row_error(row@),
{
    let fields = split_str(row, ';');
    if fields.len() != 9 {
        return Err(RowError::WrongFieldCount { found: fields.len() });
    }
    if !is_coordinate_text(fields[7].as_str()) {
        return Err(RowError::InvalidLatitude);
    }
    if !is_coordinate_text(fields[8].as_str()) {
        return Err(RowError::InvalidLongitude);
    }
    let zero = "0";
    proof {
        reveal_strlit("0");
        assert(zero@ =~= seq!['0']);
    }
    Ok(
        Record {
            city: fields[0].clone(),
            street: fields[1].clone(),
            street_number: fields[2].clone(),
            zipcode: fields[3].clone(),
            urban_unit: fields[4].clone(),
            old_unit: fields[5].clone(),
            district: fields[6].clone(),
            latitude: fields[7].clone(),
            longitude: fields[8].clone(),
            distance: zero.to_owned(),
            angle: zero.to_owned(),
            distance_key: 0,
        },
    )
}

/// The nine serialisable fields of a record, in row order.  The computed
/// fields are not part of the row format.
pub open spec fn record_field_seqs(rec: Record) -> Seq<Seq<char>> {
    seq![
        rec.city@,
        rec.street@,
        rec.street_number@,
        rec.zipcode@,
        rec.urban_unit@,
        rec.old_unit@,
        rec.district@,
        rec.latitude@,
        rec.longitude@,
    ]
}

/// The row text of a record: its nine fields joined with `;`.
pub open spec fn serialized(rec: Record) -> Seq<char> {
    rec.city@ + seq![';'] + rec.street@ + seq![';'] + rec.street_number@ + seq![';'] + rec.zipcode@
        + seq![';'] + rec.urban_unit@ + seq![';'] + rec.old_unit@ + seq![';'] + rec.district@
        + seq![';'] + rec.latitude@ + seq![';'] + rec.longitude@
}

/// The row text of a record is its nine fields joined with `;`.
#[verifier::rlimit(60)]
pub proof fn lemma_serialized_is_join(rec: Record)
    ensures
        serialized(rec) == join_char(record_field_seqs(rec), ';'),
{
    reveal_with_fuel(join_char, 10);
    let fs = record_field_seqs(rec);
    let f8 = seq![
        rec.street@,
        rec.street_number@,
        rec.zipcode@,
        rec.urban_unit@,
        rec.old_unit@,
        rec.district@,
        rec.latitude@,
        rec.longitude@,
    ];
    let f7 = f8.drop_first();
    let f6 = f7.drop_first();
    let f5 = f6.drop_first();
    let f4 = f5.drop_first();
    let f3 = f4.drop_first();
    let f2 = f3.drop_first();
    let f1 = f2.drop_first();
    assert(fs.drop_first() =~= f8);
    assert(f1 =~= seq![rec.longitude@]);
    assert(join_char(fs, ';') == fs[0] + seq![';'] + join_char(f8, ';'));
    assert(serialized(rec) =~= join_char(fs, ';'));
}

/// Serialises the nine fields of a record back to its row text.
pub fn serialize_record(rec: &Record) -> (r: String)
    ensures
        r@ == serialized(*rec),
{
    let sep = ";";
    proof {
        reveal_strlit(";");
        assert(sep@ =~= seq![';']);
    }
    let mut out = String::new();
    out.append(rec.city.as_str());
    out.append(sep);
    out.append(rec.street.as_str());
    out.append(sep);
    out.append(rec.street_number.as_str());
    out.append(sep);
    out.append(rec.zipcode.as_str());
    out.append(sep);
    out.append(rec.urban_unit.as_str());
    out.append(sep);
    out.append(rec.old_unit.as_str());
    out.append(sep);
    out.append(rec.district.as_str());
    out.append(sep);
    out.append(rec.latitude.as_str());
    out.append(sep);
    out.append(rec.longitude.as_str());
    proof {
        assert(out@ =~= serialized(*rec));
    }
    out
}

/// Round trip: a record parsed from a well-formed row serialises back to
/// exactly that row, field for field.
pub proof fn lemma_parse_serialize_round_trip(row: Seq<char>, rec: Record)
    requires
        is_parsed_record(row, rec),
    ensures
        serialized(rec) == row,
{
    assert(record_field_seqs(rec) =~~= split_char(row, ';'));
    lemma_serialized_is_join(rec);
    lemma_join_split(row, ';');
}

// ---------------------------------------------------------------------------
// Whole inputs.  Rows are separated by line feeds; a carriage return before
// the line feed belongs to the separator, and a trailing final newline does
// not open an empty last row.
// ---------------------------------------------------------------------------

/// One trailing carriage return is not part of the row.
pub open spec fn strip_cr(line: Seq<char>) -> Seq<char> {
    if line.len() > 0 && line.last() == '\r' {
        line.drop_last()
    } else {
        line
    }
}

/// The rows of a whole input text.
pub open spec fn input_rows(s: Seq<char>) -> Seq<Seq<char>> {
    let raw = split_char(s, '\n');
    let trimmed = if raw.len() > 0 && raw.last().len() == 0 {
        raw.drop_last()
    } else {
        raw
    };
    trimmed.map_values(|line: Seq<char>| strip_cr(line))
}

/// Splits a whole input into its row texts.
fn split_rows(input: &str) -> (rows: Vec<String>)
    ensures
        rows@.len() == input_rows(input@).len(),
        forall|i: int| 0 <= i < rows@.len() ==> #[trigger] rows@[i]@ == input_rows(input@)[i],
{
    let ghost raw = split_char(input@, '\n');
    let mut lines = split_str(input, '\n');
    if lines.len() > 0 && lines[lines.len() - 1].as_str().is_empty() {
        lines.pop();
        proof {
            assert(raw.last().len() == 0);
        }
    }
    let ghost trimmed = if raw.len() > 0 && raw.last().len() == 0 {
        raw.drop_last()
    } else {
        raw
    };
    let mut rows: Vec<String> = Vec::new();
    let mut i: usize = 0;
    while i < lines.len()
        invariant
            0 <= i <= lines.len(),
            lines@.len() == trimmed.len(),
            forall|m: int| 0 <= m < lines@.len() ==> #[trigger] lines@[m]@ == trimmed[m],
            rows@.len() == i,
            forall|m: int| 0 <= m < i ==> #[trigger] rows@[m]@ == strip_cr(trimmed[m]),
        decreases lines.len() - i,
    {
        let line = &lines[i];
        let n = line.as_str().unicode_len();
        if n > 0 && line.as_str().get_char(n - 1) == '\r' {
            let stripped = line.as_str().substring_char(0, n - 1).to_owned();
            proof {
                assert(line@.drop_last() =~= line@.subrange(0, n - 1));
            }
            rows.push(stripped);
        } else {
            rows.push(line.clone());
        }
        i += 1;
    }
    proof {
        let result = trimmed.map_values(|line: Seq<char>| strip_cr(line));
        assert forall|m: int| 0 <= m < rows@.len() implies #[trigger] rows@[m]@ == input_rows(
            input@,
        )[m] by {
            assert(result[m] == strip_cr(trimmed[m]));
        }
    }
    rows
}

/// Parses a whole input into records, one per row, in input order.  The
/// batch succeeds exactly when every row is well-formed; otherwise the first
/// malformed row aborts the batch and is reported with its index and defect.
pub fn parse_records(input: &str) -> (r: Result<Vec<Record>, ParseError>)
    ensures
        r is Ok <==> (forall|i: int|
            0 <= i < input_rows(input@).len() ==> row_ok(#[trigger] input_rows(input@)[i])),
        r matches Ok(recs) ==> recs@.len() == input_rows(input@).len() && forall|i: int|
            0 <= i < recs@.len() ==> is_parsed_record(input_rows(input@)[i], #[trigger] recs@[i]),
        r matches Err(e) ==> e.row < input_rows(input@).len() && !row_ok(
            input_rows(input@)[e.row as int],
        ) && e.error == row_error(input_rows(input@)[e.row as int]) && (forall|i: int|
            0 <= i < e.row ==> row_ok(#[trigger] input_rows(input@)[i])),
{
    let rows = split_rows(input);
    let mut recs: Vec<Record> = Vec::new();
    let mut i: usize = 0;
    while i < rows.len()
        invariant
            0 <= i <= rows.len(),
            rows@.len() == input_rows(input@).len(),
            forall|m: int| 0 <= m < rows@.len() ==> #[trigger] rows@[m]@ == input_rows(input@)[m],
            recs@.len() == i,
            forall|m: int| 0 <= m < i ==> row_ok(#[trigger] input_rows(input@)[m]),
            forall|m: int|
                0 <= m < i ==> is_parsed_record(input_rows(input@)[m], #[trigger] recs@[m]),
        decreases rows.len() - i,
    {
        match parse_record(rows[i].as_str()) {
            Ok(rec) => {
                recs.push(rec);
            },
            Err(e) => {
                return Err(ParseError { row: i, error: e });
            },
        }
        i += 1;
    }
    Ok(recs)
}

} // verus!
