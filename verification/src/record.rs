use vstd::prelude::*;

verus! {

/// One municipal address record together with the geometry derived for it.
///
/// The seven descriptive fields and the two coordinate fields come from one
/// parsed input row; the coordinates are kept as their decimal text so that
/// re-serialising a record reproduces the row exactly.  `distance` and
/// `angle` hold the decimal display text of the computed great-circle
/// distance (meters) and compass bearing (degrees), and `distance_key` is an
/// order-preserving integer key for the computed distance, used by the
/// distance sort.  All three keep their defaults (`"0"`, `"0"`, `0`) until
/// `set_angle_direction` stores the computed geometry.
#[derive(Clone, Debug)]
pub struct Record {
    pub city: String,
    pub street: String,
    pub street_number: String,
    pub zipcode: String,
    pub urban_unit: String,
    pub old_unit: String,
    pub district: String,
    pub latitude: String,
    pub longitude: String,
    pub distance: String,
    pub angle: String,
    pub distance_key: u64,
}

impl Record {
    /// The two coordinate fields hold well-formed decimal number text.
    /// Established by the row parser and untouched afterwards.
    pub open spec fn coordinates_valid(self) -> bool {
        crate::parse::is_coordinate_literal(self.latitude@) && crate::parse::is_coordinate_literal(
            self.longitude@,
        )
    }
}

// ---------------------------------------------------------------------------
// Rendering.  One record becomes one display line: the "zipcode city -
// district," part is padded with spaces to a minimum width of 75 characters
// for the district segment, then the street, street number, distance and
// bearing follow.
// ---------------------------------------------------------------------------

pub open spec fn spaces(n: int) -> Seq<char> {
    Seq::new(if n < 0 { 0 } else { n as nat }, |i: int| ' ')
}

/// `s` padded on the right with spaces to at least `width` characters.
pub open spec fn pad_right(s: Seq<char>, width: int) -> Seq<char> {
    s + spaces(width - s.len())
}

/// The display line of a record.
pub open spec fn rendered(rec: Record) -> Seq<char> {
    rec.zipcode@ + seq![' '] + rec.city@ + seq![' ', '-', ' '] + pad_right(
        rec.district@ + seq![','],
        75,
    ) + rec.street@ + seq![' '] + rec.street_number@ + seq![' ', '=', ' '] + rec.distance@ + seq![
        'm',
        ' ',
        '/',
        ' ',
    ] + rec.angle@ + seq!['\u{00B0}']
}

impl Record {
    /// Renders the record to its display line.
    pub fn render(&self) -> (r: String)
        ensures
            r@ == rendered(*self),
    {
        proof {
            reveal_strlit(" ");
            reveal_strlit(" - ");
            reveal_strlit(",");
            reveal_strlit(" = ");
            reveal_strlit("m / ");
            reveal_strlit("\u{00B0}");
        }
        let mut out = String::new();
        out.append(self.zipcode.as_str());
        out.append(" ");
        out.append(self.city.as_str());
        out.append(" - ");
        out.append(self.district.as_str());
        out.append(",");
        let ghost head = rec_head(*self);
        proof {
            assert(out@ =~= head + rec_segment(*self));
        }
        let seg = self.district.as_str().unicode_len();
        let pad: usize = if seg >= 74 {
            0
        } else {
            74 - seg
        };
        let mut k: usize = 0;
        while k < pad
            invariant
                0 <= k <= pad,
                out@ == head + rec_segment(*self) + spaces(k as int),
            decreases pad - k,
        {
            out.append(" ");
            proof {
                reveal_strlit(" ");
                assert(spaces(k as int) + " "@ =~= spaces(k + 1 as int));
                assert(out@ =~= head + rec_segment(*self) + spaces(k + 1 as int));
            }
            k += 1;
        }
        proof {
            assert(spaces(pad as int) == spaces(75 - rec_segment(*self).len()));
            assert(out@ =~= head + pad_right(rec_segment(*self), 75));
        }
        out.append(self.street.as_str());
        out.append(" ");
        out.append(self.street_number.as_str());
        out.append(" = ");
        out.append(self.distance.as_str());
        out.append("m / ");
        out.append(self.angle.as_str());
        out.append("\u{00B0}");
        proof {
            assert(out@ =~= rendered(*self));
        }
        out
    }
}

/// The part of the display line before the padded district segment.
pub open spec fn rec_head(rec: Record) -> Seq<char> {
    rec.zipcode@ + seq![' '] + rec.city@ + seq![' ', '-', ' ']
}

/// The district segment before padding: the district and its comma.
pub open spec fn rec_segment(rec: Record) -> Seq<char> {
    rec.district@ + seq![',']
}

/// Rendering width: for a district shorter than 74 characters, the
/// "district," segment of the display line is padded to exactly 75
/// characters, and the street field begins right after it.
pub proof fn lemma_render_width(rec: Record)
    requires
        rec.district@.len() < 74,
    ensures
        pad_right(rec_segment(rec), 75).len() == 75,
        rendered(rec).len() >= rec_head(rec).len() + 75,
        rendered(rec).subrange(
            rec_head(rec).len() as int,
            rec_head(rec).len() as int + 75,
        ) == pad_right(rec_segment(rec), 75),
        rendered(rec).subrange(
            rec_head(rec).len() as int + 75,
            rec_head(rec).len() as int + 75 + rec.street@.len() as int,
        ) == rec.street@,
{
    let h = rec_head(rec).len() as int;
    assert(rendered(rec).subrange(h, h + 75) =~= pad_right(rec_segment(rec), 75));
    assert(rendered(rec).subrange(h + 75, h + 75 + rec.street@.len()) =~= rec.street@);
}

/// Renders every record to its display line, in order.  Rendering is
/// sequential and order-preserving; it is applied only after the sort.
pub fn render_report(records: &Vec<Record>) -> (lines: Vec<String>)
    ensures
        lines@.len() == records@.len(),
        forall|i: int|
            0 <= i < records@.len() ==> (#[trigger] lines@[i])@ == rendered(records@[i]),
{
    let mut lines: Vec<String> = Vec::new();
    let mut i: usize = 0;
    while i < records.len()
        invariant
            0 <= i <= records@.len(),
            lines@.len() == i,
            forall|m: int| 0 <= m < i ==> (#[trigger] lines@[m])@ == rendered(records@[m]),
        decreases records@.len() - i,
    {
        lines.push(records[i].render());
        i += 1;
    }
    lines
}

// ---------------------------------------------------------------------------
// Natural ordering.  Records are ordered by their text fields in the order
// city, urban unit, district, zipcode, street, street number; the remaining
// fields do not take part.  This ordering exists for comparisons outside the
// distance report; the report itself sorts by computed distance.
// ---------------------------------------------------------------------------

/// Lexicographic comparison of two character sequences by scalar value.
pub open spec fn seq_cmp(a: Seq<char>, b: Seq<char>) -> core::cmp::Ordering
    decreases a.len(),
{
    if a.len() == 0 && b.len() == 0 {
        core::cmp::Ordering::Equal
    } else if a.len() == 0 {
        core::cmp::Ordering::Less
    } else if b.len() == 0 {
        core::cmp::Ordering::Greater
    } else if (a[0] as u32) < (b[0] as u32) {
        core::cmp::Ordering::Less
    } else if (a[0] as u32) > (b[0] as u32) {
        core::cmp::Ordering::Greater
    } else {
        seq_cmp(a.drop_first(), b.drop_first())
    }
}

/// The natural ordering of two records.
pub open spec fn natural_cmp(a: Record, b: Record) -> core::cmp::Ordering {
    if seq_cmp(a.city@, b.city@) != core::cmp::Ordering::Equal {
        seq_cmp(a.city@, b.city@)
    } else if seq_cmp(a.urban_unit@, b.urban_unit@) != core::cmp::Ordering::Equal {
        seq_cmp(a.urban_unit@, b.urban_unit@)
    } else if seq_cmp(a.district@, b.district@) != core::cmp::Ordering::Equal {
        seq_cmp(a.district@, b.district@)
    } else if seq_cmp(a.zipcode@, b.zipcode@) != core::cmp::Ordering::Equal {
        seq_cmp(a.zipcode@, b.zipcode@)
    } else if seq_cmp(a.street@, b.street@) != core::cmp::Ordering::Equal {
        seq_cmp(a.street@, b.street@)
    } else {
        seq_cmp(a.street_number@, b.street_number@)
    }
}

/// If the first `i` characters agree, the comparison is decided by the
/// suffixes.
proof fn lemma_seq_cmp_skip(a: Seq<char>, b: Seq<char>, i: int)
    requires
        0 <= i <= a.len(),
        i <= b.len(),
        forall|m: int| 0 <= m < i ==> (#[trigger] a[m]) as u32 == (#[trigger] b[m]) as u32,
    ensures
        seq_cmp(a, b) == seq_cmp(a.skip(i), b.skip(i)),
    decreases i,
{
    if i > 0 {
        assert(a.len() > 0 && b.len() > 0);
        assert(a[0] as u32 == b[0] as u32);
        lemma_seq_cmp_skip(a.drop_first(), b.drop_first(), i - 1);
        assert(a.drop_first().skip(i - 1) =~= a.skip(i));
        assert(b.drop_first().skip(i - 1) =~= b.skip(i));
    } else {
        assert(a.skip(0) =~= a);
        assert(b.skip(0) =~= b);
    }
}

/// Lexicographic comparison of two strings by character scalar value.
fn str_compare(a: &str, b: &str) -> (r: core::cmp::Ordering)
    ensures
        r == seq_cmp(a@, b@),
{
    let na = a.unicode_len();
    let nb = b.unicode_len();
    let mut i: usize = 0;
    while i < na && i < nb
        invariant
            0 <= i <= na,
            i <= nb,
            na == a@.len(),
            nb == b@.len(),
            forall|m: int| 0 <= m < i ==> (#[trigger] a@[m]) as u32 == (#[trigger] b@[m]) as u32,
        decreases na - i,
    {
        let ua = a.get_char(i) as u32;
        let ub = b.get_char(i) as u32;
        if ua < ub {
            proof {
                lemma_seq_cmp_skip(a@, b@, i as int);
                assert(a@.skip(i as int)[0] == a@[i as int]);
                assert(b@.skip(i as int)[0] == b@[i as int]);
            }
            return core::cmp::Ordering::Less;
        }
        if ua > ub {
            proof {
                lemma_seq_cmp_skip(a@, b@, i as int);
                assert(a@.skip(i as int)[0] == a@[i as int]);
                assert(b@.skip(i as int)[0] == b@[i as int]);
            }
            return core::cmp::Ordering::Greater;
        }
        i += 1;
    }
    proof {
        lemma_seq_cmp_skip(a@, b@, i as int);
    }
    if na == nb {
        core::cmp::Ordering::Equal
    } else if na < nb {
        core::cmp::Ordering::Less
    } else {
        proof {
            assert(a@.skip(i as int).len() > 0);
        }
        core::cmp::Ordering::Greater
    }
}

impl PartialEq for Record {
    /// Records are equal when all their fields are equal.
    fn eq(&self, other: &Self) -> (r: bool) {
        self.city == other.city && self.street == other.street && self.street_number
            == other.street_number && self.zipcode == other.zipcode && self.urban_unit
            == other.urban_unit && self.old_unit == other.old_unit && self.district
            == other.district && self.latitude == other.latitude && self.longitude
            == other.longitude && self.distance == other.distance && self.angle == other.angle
            && self.distance_key == other.distance_key
    }
}

impl vstd::std_specs::cmp::PartialEqSpecImpl for Record {
    open spec fn obeys_eq_spec() -> bool {
        true
    }

    open spec fn eq_spec(&self, other: &Self) -> bool {
        self.city@ == other.city@ && self.street@ == other.street@ && self.street_number@
            == other.street_number@ && self.zipcode@ == other.zipcode@ && self.urban_unit@
            == other.urban_unit@ && self.old_unit@ == other.old_unit@ && self.district@
            == other.district@ && self.latitude@ == other.latitude@ && self.longitude@
            == other.longitude@ && self.distance@ == other.distance@ && self.angle@
            == other.angle@ && self.distance_key == other.distance_key
    }
}

impl PartialOrd for Record {
    /// The natural ordering: city, urban unit, district, zipcode, street,
    /// street number.
    fn partial_cmp(&self, other: &Self) -> (r: Option<core::cmp::Ordering>) {
        let c = str_compare(self.city.as_str(), other.city.as_str());
        if !matches!(c, core::cmp::Ordering::Equal) {
            return Some(c);
        }
        let c = str_compare(self.urban_unit.as_str(), other.urban_unit.as_str());
        if !matches!(c, core::cmp::Ordering::Equal) {
            return Some(c);
        }
        let c = str_compare(self.district.as_str(), other.district.as_str());
        if !matches!(c, core::cmp::Ordering::Equal) {
            return Some(c);
        }
        let c = str_compare(self.zipcode.as_str(), other.zipcode.as_str());
        if !matches!(c, core::cmp::Ordering::Equal) {
            return Some(c);
        }
        let c = str_compare(self.street.as_str(), other.street.as_str());
        if !matches!(c, core::cmp::Ordering::Equal) {
            return Some(c);
        }
        Some(str_compare(self.street_number.as_str(), other.street_number.as_str()))
    }
}

impl vstd::std_specs::cmp::PartialOrdSpecImpl for Record {
    open spec fn obeys_partial_cmp_spec() -> bool {
        true
    }

    open spec fn partial_cmp_spec(&self, other: &Self) -> Option<core::cmp::Ordering> {
        Some(natural_cmp(*self, *other))
    }
}

} // verus!
