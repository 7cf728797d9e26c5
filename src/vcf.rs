//! The variant catalog (VCF) text format: header columns, data rows, and the
//! expansion of multi-allelic rows into single-allele variants.

use crate::text::{
    chars_of, decimal, decimal_string, has_prefix, lemma_split_pieces_lack_sep, parse_u32,
    parse_u32_text, split, split_range, split_text, starts_with, string_from, trim, trim_bounds,
    trim_end, trim_end_bound,
};
use crate::{is_invalid, Variant, VariantView, VlodError};
use vstd::prelude::*;
use vstd::string::StringExecFns;

verus! {

/// The first index of a field equal to `a` or to `b`.
pub open spec fn find_column(fields: Seq<Seq<char>>, a: Seq<char>, b: Seq<char>) -> Option<int>
    decreases fields.len(),
{
    if fields.len() == 0 {
        None
    } else {
        match find_column(fields.drop_last(), a, b) {
            Some(i) => Some(i),
            None => if fields.last() == a || fields.last() == b {
                Some(fields.len() - 1)
            } else {
                None
            },
        }
    }
}

proof fn lemma_find_column_prefix(fields: Seq<Seq<char>>, a: Seq<char>, b: Seq<char>, k: int)
    requires
        0 <= k <= fields.len(),
        find_column(fields.take(k), a, b) is Some,
    ensures
        find_column(fields, a, b) == find_column(fields.take(k), a, b),
    decreases fields.len(),
{
    if k < fields.len() {
        assert(fields.drop_last().take(k) =~= fields.take(k));
        lemma_find_column_prefix(fields.drop_last(), a, b, k);
    } else {
        assert(fields.take(k) =~= fields);
    }
}

proof fn lemma_find_column_bound(fields: Seq<Seq<char>>, a: Seq<char>, b: Seq<char>)
    ensures
        match find_column(fields, a, b) {
            Some(i) => 0 <= i < fields.len(),
            None => true,
        },
    decreases fields.len(),
{
    if fields.len() > 0 {
        lemma_find_column_bound(fields.drop_last(), a, b);
    }
}

pub open spec fn opt_int(o: Option<usize>) -> Option<int> {
    match o {
        Some(i) => Some(i as int),
        None => None,
    }
}

pub(crate) fn find_field(fields: &Vec<String>, a: &str, b: &str) -> (r: Option<usize>)
    ensures
        opt_int(r) == find_column(fields.deep_view(), a@, b@),
{
    let ghost f = fields.deep_view();
    let a2 = a.to_owned();
    let b2 = b.to_owned();
    let mut i: usize = 0;
    assert(f.take(0) =~= Seq::<Seq<char>>::empty());
    while i < fields.len()
        invariant
            i <= fields@.len(),
            f == fields.deep_view(),
            a2@ == a@,
            b2@ == b@,
            find_column(f.take(i as int), a@, b@) is None,
        decreases fields.len() - i,
    {
        assert(f.take(i + 1).drop_last() =~= f.take(i as int));
        if fields[i] == a2 || fields[i] == b2 {
            proof {
                lemma_find_column_prefix(f, a@, b@, i + 1);
            }
            return Some(i);
        }
        i += 1;
    }
    assert(f.take(i as int) =~= f);
    None
}

/// Where each named column of the catalog stands, as read from its header.
#[derive(Debug, Clone, Copy)]
pub struct VcfColumnIndices {
    pub chrom: usize,
    pub pos: usize,
    pub id: usize,
    pub ref_allele: usize,
    pub alt: usize,
    pub qual: usize,
    pub filter: usize,
    pub info: usize,
    pub format: Option<usize>,
    pub samples_start: usize,
}

/// The column layout that a header line names, or the message for the
/// first required column that it lacks.
pub open spec fn header_layout(line: Seq<char>) -> Result<VcfColumnIndices, Seq<char>> {
    let f = split(trim(line), '\t');
    let chrom = find_column(f, "CHROM"@, "#CHROM"@);
    let pos = find_column(f, "POS"@, "POS"@);
    let id = find_column(f, "ID"@, "ID"@);
    let ref_allele = find_column(f, "REF"@, "REF"@);
    let alt = find_column(f, "ALT"@, "ALT"@);
    let qual = find_column(f, "QUAL"@, "QUAL"@);
    let filter = find_column(f, "FILTER"@, "FILTER"@);
    let info = find_column(f, "INFO"@, "INFO"@);
    let format = find_column(f, "FORMAT"@, "FORMAT"@);
    if chrom is None {
        Err("CHROM column not found in VCF header"@)
    } else if pos is None {
        Err("POS column not found in VCF header"@)
    } else if id is None {
        Err("ID column not found in VCF header"@)
    } else if ref_allele is None {
        Err("REF column not found in VCF header"@)
    } else if alt is None {
        Err("ALT column not found in VCF header"@)
    } else if qual is None {
        Err("QUAL column not found in VCF header"@)
    } else if filter is None {
        Err("FILTER column not found in VCF header"@)
    } else if info is None {
        Err("INFO column not found in VCF header"@)
    } else {
        Ok(
            VcfColumnIndices {
                chrom: chrom->0 as usize,
                pos: pos->0 as usize,
                id: id->0 as usize,
                ref_allele: ref_allele->0 as usize,
                alt: alt->0 as usize,
                qual: qual->0 as usize,
                filter: filter->0 as usize,
                info: info->0 as usize,
                format: match format {
                    Some(i) => Some(i as usize),
                    None => None,
                },
                samples_start: match format {
                    Some(i) => (i + 1) as usize,
                    None => f.len() as usize,
                },
            },
        )
    }
}

/// The outcome `r` is the one that `expected` describes.
pub open spec fn outcome_is<T>(r: Result<T, VlodError>, expected: Result<T, Seq<char>>) -> bool {
    match expected {
        Ok(x) => r == Ok::<T, VlodError>(x),
        Err(m) => is_invalid(r, m),
    }
}

fn missing(msg: &str) -> (r: VlodError)
    ensures
        r is InvalidVariant && r->InvalidVariant_0@ == msg@,
{
    VlodError::InvalidVariant(msg.to_owned())
}

impl VcfColumnIndices {
    /// Locates the named columns in a header line (white space at its ends
    /// is ignored); `CHROM` may also be written `#CHROM`. All of CHROM, POS,
    /// ID, REF, ALT, QUAL, FILTER and INFO must be present; FORMAT is
    /// optional, and the samples start after it.
    pub fn from_header(header_line: &str) -> (r: Result<Self, VlodError>)
        ensures
            outcome_is(r, header_layout(header_line@)),
    {
        let cs = chars_of(header_line);
        let (lo, hi) = trim_bounds(&cs);
        let fields = split_range(&cs, lo, hi, '\t');
        let ghost f = fields.deep_view();
        proof {
            lemma_find_column_bound(f, "FORMAT"@, "FORMAT"@);
        }
        let chrom = match find_field(&fields, "CHROM", "#CHROM") {
            Some(i) => i,
            None => {
                return Err(missing("CHROM column not found in VCF header"));
            },
        };
        let pos = match find_field(&fields, "POS", "POS") {
            Some(i) => i,
            None => {
                return Err(missing("POS column not found in VCF header"));
            },
        };
        let id = match find_field(&fields, "ID", "ID") {
            Some(i) => i,
            None => {
                return Err(missing("ID column not found in VCF header"));
            },
        };
        let ref_allele = match find_field(&fields, "REF", "REF") {
            Some(i) => i,
            None => {
                return Err(missing("REF column not found in VCF header"));
            },
        };
        let alt = match find_field(&fields, "ALT", "ALT") {
            Some(i) => i,
            None => {
                return Err(missing("ALT column not found in VCF header"));
            },
        };
        let qual = match find_field(&fields, "QUAL", "QUAL") {
            Some(i) => i,
            None => {
                return Err(missing("QUAL column not found in VCF header"));
            },
        };
        let filter = match find_field(&fields, "FILTER", "FILTER") {
            Some(i) => i,
            None => {
                return Err(missing("FILTER column not found in VCF header"));
            },
        };
        let info = match find_field(&fields, "INFO", "INFO") {
            Some(i) => i,
            None => {
                return Err(missing("INFO column not found in VCF header"));
            },
        };
        let format = find_field(&fields, "FORMAT", "FORMAT");
        let samples_start = match format {
            Some(f) => f + 1,
            None => fields.len(),
        };
        Ok(
            VcfColumnIndices {
                chrom,
                pos,
                id,
                ref_allele,
                alt,
                qual,
                filter,
                info,
                format,
                samples_start,
            },
        )
    }
}

/// A catalog row as plain text and numbers.
pub struct RecordView {
    pub variant: VariantView,
    pub info: Seq<char>,
    pub format: Option<Seq<char>>,
    pub samples: Seq<Seq<char>>,
}

pub open spec fn opt_text(o: Option<String>) -> Option<Seq<char>> {
    match o {
        Some(s) => Some(s@),
        None => None,
    }
}

/// One data row of the catalog: its variant (with the alternate field as
/// written, possibly comma-separated), attributes, format and sample columns.
#[derive(Debug, Clone)]
pub struct VcfRecord {
    pub variant: Variant,
    pub info: String,
    pub format: Option<String>,
    pub samples: Vec<String>,
}

impl View for VcfRecord {
    type V = RecordView;

    open spec fn view(&self) -> RecordView {
        RecordView {
            variant: self.variant@,
            info: self.info@,
            format: opt_text(self.format),
            samples: self.samples.deep_view(),
        }
    }
}

/// The outcome `r` holds the row that `expected` describes, or its error.
pub open spec fn record_outcome(r: Result<VcfRecord, VlodError>, expected: Result<RecordView, Seq<char>>) -> bool {
    match expected {
        Ok(v) => r is Ok && r->Ok_0@ == v,
        Err(m) => is_invalid(r, m),
    }
}

/// A row read with the column layout of a header.
pub open spec fn row_with_layout(line: Seq<char>, ix: VcfColumnIndices) -> Result<RecordView, Seq<char>> {
    let f = split(line, '\t');
    if f.len() <= ix.info || f.len() <= ix.chrom || f.len() <= ix.pos || f.len() <= ix.ref_allele
        || f.len() <= ix.alt {
        Err("Invalid VCF line format - not enough columns: "@ + line)
    } else {
        match parse_u32(f[ix.pos as int]) {
            None => Err("Invalid position: "@ + f[ix.pos as int]),
            Some(p) => Ok(
                RecordView {
                    variant: VariantView {
                        chrom: f[ix.chrom as int],
                        pos: p,
                        ref_allele: f[ix.ref_allele as int],
                        alt_allele: f[ix.alt as int],
                    },
                    info: f[ix.info as int],
                    format: match ix.format {
                        Some(k) => if k < f.len() {
                            Some(f[k as int])
                        } else {
                            None
                        },
                        None => None,
                    },
                    samples: if ix.samples_start < f.len() {
                        f.subrange(ix.samples_start as int, f.len() as int)
                    } else {
                        Seq::empty()
                    },
                },
            ),
        }
    }
}

/// A row read with the conventional layout: CHROM, POS, ID, REF, ALT, QUAL,
/// FILTER, INFO, then FORMAT and the samples.
pub open spec fn row_fixed(line: Seq<char>) -> Result<RecordView, Seq<char>> {
    let f = split(line, '\t');
    if f.len() < 8 {
        Err("Invalid VCF line format: "@ + line)
    } else {
        match parse_u32(f[1]) {
            None => Err("Invalid position: "@ + f[1]),
            Some(p) => Ok(
                RecordView {
                    variant: VariantView {
                        chrom: f[0],
                        pos: p,
                        ref_allele: f[3],
                        alt_allele: f[4],
                    },
                    info: f[7],
                    format: if f.len() > 8 {
                        Some(f[8])
                    } else {
                        None
                    },
                    samples: if f.len() > 9 {
                        f.subrange(9, f.len() as int)
                    } else {
                        Seq::empty()
                    },
                },
            ),
        }
    }
}

/// The pieces, each preceded by a tab.
pub open spec fn tab_prefixed(parts: Seq<Seq<char>>) -> Seq<char>
    decreases parts.len(),
{
    if parts.len() == 0 {
        Seq::empty()
    } else {
        tab_prefixed(parts.drop_last()) + "\t"@ + parts.last()
    }
}

/// The catalog line of a row: ID and QUAL are written `.`, FILTER `PASS`;
/// the samples follow only where a format is present.
pub open spec fn record_line(r: RecordView) -> Seq<char> {
    r.variant.chrom + "\t"@ + decimal(r.variant.pos as nat) + "\t.\t"@ + r.variant.ref_allele
        + "\t"@ + r.variant.alt_allele + "\t.\tPASS\t"@ + r.info + match r.format {
        Some(f) => "\t"@ + f + tab_prefixed(r.samples),
        None => Seq::<char>::empty(),
    }
}

/// The texts `fields[k..]`.
fn fields_from(fields: &Vec<String>, k: usize) -> (r: Vec<String>)
    requires
        k <= fields@.len(),
    ensures
        r.deep_view() == fields.deep_view().subrange(k as int, fields@.len() as int),
{
    let mut out: Vec<String> = Vec::new();
    let mut i = k;
    while i < fields.len()
        invariant
            k <= i <= fields@.len(),
            out.deep_view() == fields.deep_view().subrange(k as int, i as int),
        decreases fields.len() - i,
    {
        let ghost before = out.deep_view();
        out.push(fields[i].clone());
        i += 1;
        assert(out.deep_view() =~= fields.deep_view().subrange(k as int, i as int)) by {
            assert(out.deep_view() =~= before.push(fields@[i - 1]@));
        }
    }
    out
}

fn invalid_with(msg: &str, detail: &str) -> (r: VlodError)
    ensures
        r is InvalidVariant && r->InvalidVariant_0@ == msg@ + detail@,
{
    let mut m = msg.to_owned();
    m.append(detail);
    VlodError::InvalidVariant(m)
}

impl VcfRecord {
    /// Reads a data row with the column layout of a header. A row too short
    /// to hold the INFO column, or any column the variant needs, is invalid;
    /// so is a position that is not an unsigned 32-bit number.
    pub fn from_line_with_indices(line: &str, indices: &VcfColumnIndices) -> (r: Result<
        Self,
        VlodError,
    >)
        ensures
            record_outcome(r, row_with_layout(line@, *indices)),
    {
        let fields = split_text(line, '\t');
        let n = fields.len();
        if n <= indices.info || n <= indices.chrom || n <= indices.pos || n <= indices.ref_allele
            || n <= indices.alt {
            return Err(invalid_with("Invalid VCF line format - not enough columns: ", line));
        }
        let pos = match parse_u32_text(fields[indices.pos].as_str()) {
            Some(p) => p,
            None => {
                return Err(invalid_with("Invalid position: ", fields[indices.pos].as_str()));
            },
        };
        let variant = Variant::new(
            fields[indices.chrom].clone(),
            pos,
            fields[indices.ref_allele].clone(),
            fields[indices.alt].clone(),
        );
        let info = fields[indices.info].clone();
        let format = match indices.format {
            Some(f) => if f < n {
                Some(fields[f].clone())
            } else {
                None
            },
            None => None,
        };
        let samples = if indices.samples_start < n {
            fields_from(&fields, indices.samples_start)
        } else {
            Vec::new()
        };
        let r = VcfRecord { variant, info, format, samples };
        assert(r.samples.deep_view() =~= row_with_layout(line@, *indices)->Ok_0.samples);
        Ok(r)
    }

    /// Reads a data row with the conventional column layout: it needs at
    /// least eight columns and a valid position.
    pub fn from_line(line: &str) -> (r: Result<Self, VlodError>)
        ensures
            record_outcome(r, row_fixed(line@)),
    {
        let fields = split_text(line, '\t');
        let n = fields.len();
        if n < 8 {
            return Err(invalid_with("Invalid VCF line format: ", line));
        }
        let pos = match parse_u32_text(fields[1].as_str()) {
            Some(p) => p,
            None => {
                return Err(invalid_with("Invalid position: ", fields[1].as_str()));
            },
        };
        let variant = Variant::new(fields[0].clone(), pos, fields[3].clone(), fields[4].clone());
        let info = fields[7].clone();
        let format = if n > 8 {
            Some(fields[8].clone())
        } else {
            None
        };
        let samples = if n > 9 {
            fields_from(&fields, 9)
        } else {
            Vec::new()
        };
        let r = VcfRecord { variant, info, format, samples };
        assert(r.samples.deep_view() =~= row_fixed(line@)->Ok_0.samples);
        Ok(r)
    }

    /// Writes the row as a catalog line.
    pub fn to_line(&self) -> (r: String)
        ensures
            r@ == record_line(self@),
    {
        let mut line = self.variant.chrom.clone();
        line.append("\t");
        let p = decimal_string(self.variant.pos as u128);
        line.append(p.as_str());
        line.append("\t.\t");
        line.append(self.variant.ref_allele.as_str());
        line.append("\t");
        line.append(self.variant.alt_allele.as_str());
        line.append("\t.\tPASS\t");
        line.append(self.info.as_str());
        let ghost head = line@;
        match &self.format {
            Some(f) => {
                line.append("\t");
                line.append(f.as_str());
                let ghost with_format = line@;
                let mut i: usize = 0;
                assert(self.samples.deep_view().take(0) =~= Seq::<Seq<char>>::empty());
                assert(line@ =~= with_format + tab_prefixed(self.samples.deep_view().take(0)));
                while i < self.samples.len()
                    invariant
                        i <= self.samples@.len(),
                        line@ == with_format + tab_prefixed(self.samples.deep_view().take(i as int)),
                    decreases self.samples.len() - i,
                {
                    let ghost pre = self.samples.deep_view().take(i as int);
                    assert(self.samples.deep_view().take(i + 1).drop_last() =~= pre);
                    line.append("\t");
                    line.append(self.samples[i].as_str());
                    i += 1;
                    assert(line@ =~= with_format + tab_prefixed(
                        self.samples.deep_view().take(i as int),
                    ));
                }
                assert(self.samples.deep_view().take(i as int) =~= self.samples.deep_view());
                assert(line@ =~= record_line(self@));
            },
            None => {
                assert(line@ =~= record_line(self@));
            },
        }
        line
    }
}

/// One variant per comma-separated alternate of a row, each with the row's
/// chromosome, position and reference.
pub open spec fn expand(rec: RecordView) -> Seq<VariantView> {
    split(rec.variant.alt_allele, ',').map_values(
        |a: Seq<char>|
            VariantView {
                chrom: rec.variant.chrom,
                pos: rec.variant.pos,
                ref_allele: rec.variant.ref_allele,
                alt_allele: a,
            },
    )
}

/// Where a catalog reader stands: whether the header line has been seen,
/// and the column layout it gave, if it named every required column.
#[derive(Debug, Clone, Copy)]
pub struct CatalogReader {
    pub header_seen: bool,
    pub layout: Option<VcfColumnIndices>,
}

pub open spec fn catalog_start() -> CatalogReader {
    CatalogReader { header_seen: false, layout: None }
}

/// The data row of a trimmed line, read by the layout in force (the
/// conventional one where there is none).
pub open spec fn catalog_row(st: CatalogReader, t: Seq<char>) -> Result<RecordView, Seq<char>> {
    match st.layout {
        Some(ix) => row_with_layout(t, ix),
        None => row_fixed(t),
    }
}

/// What one catalog line does (the line is first trimmed): metadata (`##`)
/// and blank lines are passed over; the first line that begins with a
/// single `#` is the header and gives the layout, unless it lacks a required
/// column, when the conventional layout stays in force; later such lines are
/// passed over; a data row yields its variants, and a malformed row none.
pub open spec fn catalog_step(st: CatalogReader, line: Seq<char>) -> (CatalogReader, Seq<VariantView>) {
    let t = trim(line);
    if starts_with(t, "##"@) {
        (st, Seq::empty())
    } else if starts_with(t, "#"@) {
        if st.header_seen {
            (st, Seq::empty())
        } else {
            (
                CatalogReader {
                    header_seen: true,
                    layout: match header_layout(t) {
                        Ok(ix) => Some(ix),
                        Err(_) => None,
                    },
                },
                Seq::empty(),
            )
        }
    } else if t.len() == 0 {
        (st, Seq::empty())
    } else {
        match catalog_row(st, t) {
            Ok(rec) => (st, expand(rec)),
            Err(_) => (st, Seq::empty()),
        }
    }
}

/// The message of a line that is passed over as malformed: a header that
/// lacks a required column, or a data row that cannot be read.
pub open spec fn line_problem(st: CatalogReader, line: Seq<char>) -> Option<Seq<char>> {
    let t = trim(line);
    if starts_with(t, "##"@) {
        None
    } else if starts_with(t, "#"@) {
        if st.header_seen {
            None
        } else {
            match header_layout(t) {
                Ok(_) => None,
                Err(m) => Some(m),
            }
        }
    } else if t.len() == 0 {
        None
    } else {
        match catalog_row(st, t) {
            Ok(_) => None,
            Err(m) => Some(m),
        }
    }
}

/// The variants of a catalog given as lines, in order, with the reader's
/// state after the last line.
pub open spec fn catalog(lines: Seq<Seq<char>>) -> (CatalogReader, Seq<VariantView>)
    decreases lines.len(),
{
    if lines.len() == 0 {
        (catalog_start(), Seq::empty())
    } else {
        let (st, vs) = catalog(lines.drop_last());
        let (st2, more) = catalog_step(st, lines.last());
        (st2, vs + more)
    }
}

fn push_expanded(rec: &VcfRecord, out: &mut Vec<Variant>)
    ensures
        final(out).deep_view() == old(out).deep_view() + expand(rec@),
{
    let alts = split_text(rec.variant.alt_allele.as_str(), ',');
    let ghost start = out.deep_view();
    let mut j: usize = 0;
    while j < alts.len()
        invariant
            j <= alts@.len(),
            alts.deep_view() == split(rec.variant.alt_allele@, ','),
            out.deep_view() == start + expand(rec@).take(j as int),
        decreases alts.len() - j,
    {
        let v = Variant::new(
            rec.variant.chrom.clone(),
            rec.variant.pos,
            rec.variant.ref_allele.clone(),
            alts[j].clone(),
        );
        let ghost before = out.deep_view();
        out.push(v);
        j += 1;
        assert(out.deep_view() =~= before.push(v@));
        assert(out.deep_view() =~= start + expand(rec@).take(j as int));
    }
    assert(expand(rec@).take(j as int) =~= expand(rec@));
}

impl CatalogReader {
    pub fn new() -> (r: Self)
        ensures
            r == catalog_start(),
    {
        CatalogReader { header_seen: false, layout: None }
    }

    /// Reads one catalog line (see `catalog_step`), adding its variants to
    /// `out`; a line passed over as malformed has its error handed back, so
    /// that it can be reported. Reading never fails.
    pub fn read_line(&mut self, line: &str, out: &mut Vec<Variant>) -> (r: Option<VlodError>)
        ensures
            *final(self) == catalog_step(*old(self), line@).0,
            final(out).deep_view() == old(out).deep_view() + catalog_step(*old(self), line@).1,
            match line_problem(*old(self), line@) {
                Some(m) => r is Some && is_invalid(Err::<(), VlodError>(r->0), m),
                None => r is None,
            },
    {
        let cs = chars_of(line);
        let (lo, hi) = trim_bounds(&cs);
        let t = string_from(&cs, lo, hi);
        let ghost before = out.deep_view();
        proof {
            reveal_strlit("##");
            reveal_strlit("#");
        }
        if has_prefix(&cs, lo, hi, "##") {
            assert(starts_with(t@, "#"@)) by {
                assert(t@.subrange(0, 1) =~= "#"@);
            }
            assert(out.deep_view() =~= before + Seq::<VariantView>::empty());
            return None;
        }
        if has_prefix(&cs, lo, hi, "#") {
            assert(out.deep_view() =~= before + Seq::<VariantView>::empty());
            if self.header_seen {
                return None;
            }
            self.header_seen = true;
            return match VcfColumnIndices::from_header(t.as_str()) {
                Ok(ix) => {
                    self.layout = Some(ix);
                    None
                },
                Err(e) => {
                    self.layout = None;
                    Some(e)
                },
            };
        }
        if lo == hi {
            assert(out.deep_view() =~= before + Seq::<VariantView>::empty());
            return None;
        }
        let row = match self.layout {
            Some(ix) => VcfRecord::from_line_with_indices(t.as_str(), &ix),
            None => VcfRecord::from_line(t.as_str()),
        };
        match row {
            Ok(rec) => {
                push_expanded(&rec, out);
                None
            },
            Err(e) => {
                assert(out.deep_view() =~= before + Seq::<VariantView>::empty());
                Some(e)
            },
        }
    }
}

/// Reads the variants of a catalog given as lines (see `catalog_step`):
/// multi-allelic rows are expanded, malformed rows are passed over.
pub fn variants_from_lines(lines: &Vec<String>) -> (r: Vec<Variant>)
    ensures
        r.deep_view() == catalog(lines.deep_view()).1,
{
    let ghost all = lines.deep_view();
    let mut reader = CatalogReader::new();
    let mut out: Vec<Variant> = Vec::new();
    let mut i: usize = 0;
    assert(all.take(0) =~= Seq::<Seq<char>>::empty());
    assert(out.deep_view() =~= Seq::<VariantView>::empty());
    while i < lines.len()
        invariant
            i <= lines@.len(),
            all == lines.deep_view(),
            catalog(all.take(i as int)) == (reader, out.deep_view()),
        decreases lines.len() - i,
    {
        assert(all.take(i + 1).drop_last() =~= all.take(i as int));
        assert(all.take(i + 1).last() == lines@[i as int]@);
        let _ = reader.read_line(lines[i].as_str(), &mut out);
        i += 1;
    }
    assert(all.take(i as int) =~= all);
    out
}

/// A line of a catalog read as a stream of rows: header and blank lines
/// (after trailing white space is removed) give nothing.
pub open spec fn stream_row(line: Seq<char>) -> Option<Result<RecordView, Seq<char>>> {
    let t = trim_end(line);
    if starts_with(t, "#"@) || t.len() == 0 {
        None
    } else {
        Some(row_fixed(t))
    }
}

/// Reads one line of a catalog stream with the conventional layout.
pub fn record_from_stream_line(line: &str) -> (r: Option<Result<VcfRecord, VlodError>>)
    ensures
        match stream_row(line@) {
            None => r is None,
            Some(expected) => r is Some && record_outcome(r->0, expected),
        },
{
    let cs = chars_of(line);
    let hi = trim_end_bound(&cs);
    assert(cs@.subrange(0, hi as int) == trim_end(line@));
    if hi == 0 || has_prefix(&cs, 0, hi, "#") {
        return None;
    }
    let t = string_from(&cs, 0, hi);
    Some(VcfRecord::from_line(t.as_str()))
}

/// The first two bytes of a gzip stream.
pub open spec fn gzip_magic(head: Seq<u8>) -> bool {
    head.len() >= 2 && head[0] == 0x1f && head[1] == 0x8b
}

/// Whether a stream that begins with `head` is gzip-compressed, by its
/// first two bytes.
pub fn is_gzip_magic(head: &[u8]) -> (r: bool)
    ensures
        r == gzip_magic(head@),
{
    head.len() >= 2 && head[0] == 0x1f && head[1] == 0x8b
}

/// Every variant read from a catalog carries exactly one alternate allele:
/// no alternate field of the result holds a comma, whatever the rows held.
pub proof fn lemma_catalog_single_alternates(lines: Seq<Seq<char>>)
    ensures
        forall|i: int|
            0 <= i < catalog(lines).1.len() ==> !(
            #[trigger] catalog(lines).1[i]).alt_allele.contains(','),
    decreases lines.len(),
{
    if lines.len() > 0 {
        let prev = lines.drop_last();
        lemma_catalog_single_alternates(prev);
        let (st, vs) = catalog(prev);
        let more = catalog_step(st, lines.last()).1;
        assert forall|j: int| 0 <= j < more.len() implies !(#[trigger] more[j]).alt_allele.contains(
            ',',
        ) by {
            let rec = catalog_row(st, trim(lines.last()))->Ok_0;
            lemma_split_pieces_lack_sep(rec.variant.alt_allele, ',');
            assert(more[j].alt_allele == split(rec.variant.alt_allele, ',')[j]);
        }
        let all = catalog(lines).1;
        assert(all == vs + more);
        assert forall|i: int| 0 <= i < all.len() implies !(#[trigger] all[i]).alt_allele.contains(
            ',',
        ) by {
            if i < vs.len() {
                assert(all[i] == vs[i]);
            } else {
                assert(all[i] == more[i - vs.len()]);
            }
        }
    }
}

} // verus!
