//! Detectability annotations and their merge into catalog text.

use crate::text::{
    chars_of, has_prefix, lemma_split_first, parse_u32, parse_u32_text, split, split_range,
    starts_with,
};
use crate::vcf::find_column;
use crate::vcf::opt_text;
use crate::{is_invalid, Variant, VariantView, VlodError};
use std::collections::HashMap;
use vstd::prelude::*;

verus! {

/// One stored annotation: the rest of its join key, the status and the
/// score text.
#[derive(Debug, Clone)]
pub struct ScoreEntry {
    pub chrom: String,
    pub ref_allele: String,
    pub alt_allele: String,
    pub status: String,
    pub score: String,
}

pub open spec fn entry_matches(e: ScoreEntry, k: VariantView) -> bool {
    e.chrom@ == k.chrom && e.ref_allele@ == k.ref_allele && e.alt_allele@ == k.alt_allele
}

/// The annotation of the last entry of `b` that matches `k`.
pub open spec fn bucket_lookup(b: Seq<ScoreEntry>, k: VariantView) -> Option<(Seq<char>, Seq<char>)>
    decreases b.len(),
{
    if b.len() == 0 {
        None
    } else if entry_matches(b.last(), k) {
        Some((b.last().status@, b.last().score@))
    } else {
        bucket_lookup(b.drop_last(), k)
    }
}

pub open spec fn pair_views(o: Option<(String, String)>) -> Option<(Seq<char>, Seq<char>)> {
    match o {
        Some(p) => Some((p.0@, p.1@)),
        None => None,
    }
}

/// Annotations (status and score text) keyed by chromosome, position,
/// reference and alternate; a later insert of a key replaces an earlier one.
#[derive(Debug)]
pub struct DetectabilityTable {
    buckets: HashMap<u32, Vec<ScoreEntry>>,
}

impl DetectabilityTable {
    /// The annotation stored for key `k`, if any.
    pub closed spec fn lookup(&self, k: VariantView) -> Option<(Seq<char>, Seq<char>)> {
        if self.buckets@.contains_key(k.pos) {
            bucket_lookup(self.buckets@[k.pos]@, k)
        } else {
            None
        }
    }

    pub fn new() -> (r: Self)
        ensures
            forall|k: VariantView| #[trigger] r.lookup(k) is None,
    {
        DetectabilityTable { buckets: HashMap::new() }
    }

    /// Stores the annotation for the variant's key.
    pub fn insert(&mut self, key: Variant, status: String, score: String)
        ensures
            forall|k: VariantView| #[trigger]
                final(self).lookup(k) == if k == key@ {
                    Some((status@, score@))
                } else {
                    old(self).lookup(k)
                },
    {
        broadcast use vstd::std_specs::hash::group_hash_axioms;

        let pos = key.pos;
        let ghost kv = key@;
        let mut bucket = match self.buckets.remove(&pos) {
            Some(b) => b,
            None => Vec::new(),
        };
        let ghost old_bucket = bucket@;
        assert(old(self).buckets@.contains_key(pos) ==> old_bucket == old(self).buckets@[pos]@);
        assert(!old(self).buckets@.contains_key(pos) ==> old_bucket.len() == 0);
        let entry = ScoreEntry {
            chrom: key.chrom,
            ref_allele: key.ref_allele,
            alt_allele: key.alt_allele,
            status,
            score,
        };
        let ghost e = entry;
        bucket.push(entry);
        let ghost new_bucket = bucket@;
        assert(new_bucket.drop_last() =~= old_bucket);
        assert(new_bucket.last() == e);
        self.buckets.insert(pos, bucket);
        assert(self.buckets@ == old(self).buckets@.insert(pos, bucket));
        assert forall|k: VariantView| #[trigger]
            self.lookup(k) == if k == kv {
                Some((status@, score@))
            } else {
                old(self).lookup(k)
            } by {
            if k.pos == pos {
                assert(self.buckets@[pos]@ == new_bucket);
                if k == kv {
                    assert(entry_matches(e, k));
                    assert(self.lookup(k) == Some((e.status@, e.score@)));
                } else {
                    assert(!entry_matches(e, k));
                    assert(self.lookup(k) == bucket_lookup(old_bucket, k));
                }
            } else {
                assert(self.buckets@.contains_key(k.pos) == old(self).buckets@.contains_key(k.pos));
                if self.buckets@.contains_key(k.pos) {
                    assert(self.buckets@[k.pos] == old(self).buckets@[k.pos]);
                }
                assert(k != kv);
                assert(self.lookup(k) == old(self).lookup(k));
            }
        }
    }

    /// The annotation (status, score text) stored for a key.
    pub fn get(&self, chrom: &str, pos: u32, ref_allele: &str, alt_allele: &str) -> (r: Option<
        (String, String),
    >)
        ensures
            pair_views(r) == self.lookup(
                VariantView { chrom: chrom@, pos, ref_allele: ref_allele@, alt_allele: alt_allele@ },
            ),
    {
        broadcast use vstd::std_specs::hash::group_hash_axioms;

        let ghost k = VariantView {
            chrom: chrom@,
            pos,
            ref_allele: ref_allele@,
            alt_allele: alt_allele@,
        };
        let bucket = match self.buckets.get(&pos) {
            Some(b) => b,
            None => {
                return None;
            },
        };
        let c = chrom.to_owned();
        let ra = ref_allele.to_owned();
        let aa = alt_allele.to_owned();
        let mut i = bucket.len();
        assert(bucket@.take(i as int) =~= bucket@);
        assert(self.lookup(k) == bucket_lookup(bucket@, k));
        while i > 0
            invariant
                i <= bucket@.len(),
                c@ == k.chrom,
                ra@ == k.ref_allele,
                aa@ == k.alt_allele,
                bucket_lookup(bucket@, k) == bucket_lookup(bucket@.take(i as int), k),
                self.lookup(k) == bucket_lookup(bucket@, k),
                k == (VariantView {
                    chrom: chrom@,
                    pos,
                    ref_allele: ref_allele@,
                    alt_allele: alt_allele@,
                }),
            decreases i,
        {
            let e = &bucket[i - 1];
            assert(bucket@.take(i as int).drop_last() =~= bucket@.take(i - 1));
            assert(bucket@.take(i as int).last() == bucket@[i - 1]);
            if e.chrom == c && e.ref_allele == ra && e.alt_allele == aa {
                return Some((e.status.clone(), e.score.clone()));
            }
            i -= 1;
        }
        None
    }
}

/// The declaration of the detectability status attribute.
pub open spec fn status_declaration() -> Seq<char> {
    "##INFO=<ID=DET,Number=1,Type=String,Description=\"Detectability status (Yes if detectable, No if non-detectable)\">"@
}

/// The declaration of the detectability score attribute.
pub open spec fn score_declaration() -> Seq<char> {
    "##INFO=<ID=DETS,Number=1,Type=Float,Description=\"Detectability Score\">"@
}

/// The pieces joined with tabs.
pub open spec fn join_tab(parts: Seq<Seq<char>>) -> Seq<char>
    decreases parts.len(),
{
    if parts.len() == 0 {
        Seq::empty()
    } else if parts.len() == 1 {
        parts[0]
    } else {
        join_tab(parts.drop_last()) + "\t"@ + parts.last()
    }
}

/// The join key of a data row: columns 0, 1, 3 and 4, a position that is
/// not a number standing as 0.
pub open spec fn row_key(cols: Seq<Seq<char>>) -> VariantView {
    VariantView {
        chrom: cols[0],
        pos: match parse_u32(cols[1]) {
            Some(p) => p,
            None => 0,
        },
        ref_allele: cols[3],
        alt_allele: cols[4],
    }
}

/// Attributes with the status and score appended.
pub open spec fn annotate(info: Seq<char>, status: Seq<char>, score: Seq<char>) -> Seq<char> {
    info + ";DET="@ + status + ";DETS="@ + score
}

/// A data line after the merge: a row of at least eight columns whose key
/// has an annotation gets it appended to its attribute column (the one the
/// header named INFO, else column 7); every other line is kept as it is.
pub open spec fn merge_data_line(
    line: Seq<char>,
    info_column: Option<usize>,
    t: DetectabilityTable,
) -> Seq<char> {
    let cols = split(line, '\t');
    if cols.len() < 8 {
        line
    } else {
        match t.lookup(row_key(cols)) {
            None => line,
            Some((st, sc)) => {
                let idx = match info_column {
                    Some(i) => i as int,
                    None => 7,
                };
                if idx < cols.len() {
                    join_tab(cols.update(idx, annotate(cols[idx], st, sc)))
                } else {
                    line
                }
            },
        }
    }
}

/// What the merge keeps between lines: whether the two declarations were
/// written, and the attribute column that the header named.
#[derive(Debug, Clone, Copy)]
pub struct MergeState {
    pub info_added: bool,
    pub info_column: Option<usize>,
}

pub open spec fn opt_usize(o: Option<int>) -> Option<usize> {
    match o {
        Some(i) => Some(i as usize),
        None => None,
    }
}

/// One line of the merge: the header line records where INFO stands; the
/// first `##INFO` line is followed by the two declarations; other header
/// lines pass; data lines are annotated.
pub open spec fn merge_step(s: MergeState, line: Seq<char>, t: DetectabilityTable) -> (
    MergeState,
    Seq<Seq<char>>,
) {
    if starts_with(line, "#CHROM"@) {
        (
            MergeState {
                info_added: s.info_added,
                info_column: opt_usize(find_column(split(line, '\t'), "INFO"@, "INFO"@)),
            },
            seq![line],
        )
    } else if starts_with(line, "##INFO"@) {
        if s.info_added {
            (s, seq![line])
        } else {
            (
                MergeState { info_added: true, info_column: s.info_column },
                seq![line, status_declaration(), score_declaration()],
            )
        }
    } else if starts_with(line, "#"@) {
        (s, seq![line])
    } else {
        (s, seq![merge_data_line(line, s.info_column, t)])
    }
}

pub open spec fn merge_start() -> MergeState {
    MergeState { info_added: false, info_column: None }
}

/// The merge of a whole catalog, line by line, with the state it ends in.
pub open spec fn merged(lines: Seq<Seq<char>>, t: DetectabilityTable) -> (MergeState, Seq<Seq<char>>)
    decreases lines.len(),
{
    if lines.len() == 0 {
        (merge_start(), Seq::empty())
    } else {
        let (s, out) = merged(lines.drop_last(), t);
        let (s2, more) = merge_step(s, lines.last(), t);
        (s2, out + more)
    }
}

fn join_tab_exec(parts: &Vec<String>) -> (r: String)
    ensures
        r@ == join_tab(parts.deep_view()),
{
    let ghost dv = parts.deep_view();
    if parts.len() == 0 {
        return String::new();
    }
    let mut out = parts[0].clone();
    let mut i: usize = 1;
    assert(dv.take(1) =~= seq![dv[0]]);
    while i < parts.len()
        invariant
            1 <= i <= parts@.len(),
            dv == parts.deep_view(),
            out@ == join_tab(dv.take(i as int)),
        decreases parts.len() - i,
    {
        assert(dv.take(i + 1).drop_last() =~= dv.take(i as int));
        out.append("\t");
        out.append(parts[i].as_str());
        i += 1;
    }
    assert(dv.take(i as int) =~= dv);
    out
}

fn one_line(s: &str) -> (r: Vec<String>)
    ensures
        r.deep_view() == seq![s@],
{
    let mut v: Vec<String> = Vec::new();
    v.push(s.to_owned());
    assert(v.deep_view() =~= seq![s@]);
    v
}

impl MergeState {
    pub fn new() -> (r: Self)
        ensures
            r == merge_start(),
    {
        MergeState { info_added: false, info_column: None }
    }

    fn merge_data(&self, line: &str, table: &DetectabilityTable) -> (r: String)
        ensures
            r@ == merge_data_line(line@, self.info_column, *table),
    {
        let mut fields = split_text_of(line);
        if fields.len() < 8 {
            return line.to_owned();
        }
        let pos = match parse_u32_text(fields[1].as_str()) {
            Some(p) => p,
            None => 0,
        };
        let found = table.get(fields[0].as_str(), pos, fields[3].as_str(), fields[4].as_str());
        match found {
            None => line.to_owned(),
            Some((status, score)) => {
                let idx = match self.info_column {
                    Some(i) => i,
                    None => 7,
                };
                if idx < fields.len() {
                    let mut info = fields[idx].clone();
                    info.append(";DET=");
                    info.append(status.as_str());
                    info.append(";DETS=");
                    info.append(score.as_str());
                    let ghost cols = fields.deep_view();
                    fields.set(idx, info);
                    assert(fields.deep_view() =~= cols.update(
                        idx as int,
                        annotate(cols[idx as int], status@, score@),
                    ));
                    join_tab_exec(&fields)
                } else {
                    line.to_owned()
                }
            },
        }
    }

    /// Merges one catalog line, in order, and returns the lines to write.
    pub fn merge_line(&mut self, line: &str, table: &DetectabilityTable) -> (r: Vec<String>)
        ensures
            (*final(self), r.deep_view()) == merge_step(*old(self), line@, *table),
    {
        let cs = chars_of(line);
        let n = cs.len();
        assert(cs@.subrange(0, n as int) =~= line@);
        if has_prefix(&cs, 0, n, "#CHROM") {
            let fields = split_range(&cs, 0, n, '\t');
            self.info_column = find_info(&fields);
            return one_line(line);
        }
        if has_prefix(&cs, 0, n, "##INFO") {
            if self.info_added {
                return one_line(line);
            }
            self.info_added = true;
            let mut out = one_line(line);
            let d1 = "##INFO=<ID=DET,Number=1,Type=String,Description=\"Detectability status (Yes if detectable, No if non-detectable)\">".to_owned();
            let d2 = "##INFO=<ID=DETS,Number=1,Type=Float,Description=\"Detectability Score\">".to_owned();
            assert(d1@ == status_declaration());
            assert(d2@ == score_declaration());
            let ghost o1 = out.deep_view();
            out.push(d1);
            assert(out.deep_view() =~= o1.push(status_declaration()));
            let ghost o2 = out.deep_view();
            out.push(d2);
            assert(out.deep_view() =~= o2.push(score_declaration()));
            assert(out.deep_view() =~= seq![line@, status_declaration(), score_declaration()]);
            return out;
        }
        if has_prefix(&cs, 0, n, "#") {
            return one_line(line);
        }
        let merged_line = self.merge_data(line, table);
        one_line(merged_line.as_str())
    }
}

fn split_text_of(line: &str) -> (r: Vec<String>)
    ensures
        r.deep_view() == split(line@, '\t'),
{
    crate::text::split_text(line, '\t')
}

fn find_info(fields: &Vec<String>) -> (r: Option<usize>)
    ensures
        r == opt_usize(find_column(fields.deep_view(), "INFO"@, "INFO"@)),
{
    let r = crate::vcf::find_field(fields, "INFO", "INFO");
    r
}

/// Merges annotations into a whole catalog given as lines.
pub fn merge_lines(lines: &Vec<String>, table: &DetectabilityTable) -> (r: Vec<String>)
    ensures
        r.deep_view() == merged(lines.deep_view(), *table).1,
{
    let ghost all = lines.deep_view();
    let mut state = MergeState::new();
    let mut out: Vec<String> = Vec::new();
    let mut i: usize = 0;
    assert(all.take(0) =~= Seq::<Seq<char>>::empty());
    assert(out.deep_view() =~= Seq::<Seq<char>>::empty());
    while i < lines.len()
        invariant
            i <= lines@.len(),
            all == lines.deep_view(),
            merged(all.take(i as int), *table) == (state, out.deep_view()),
        decreases lines.len() - i,
    {
        assert(all.take(i + 1).drop_last() =~= all.take(i as int));
        assert(all.take(i + 1).last() == lines@[i as int]@);
        let more = state.merge_line(lines[i].as_str(), table);
        let mut j: usize = 0;
        let ghost before = out.deep_view();
        while j < more.len()
            invariant
                j <= more@.len(),
                out.deep_view() == before + more.deep_view().take(j as int),
            decreases more.len() - j,
        {
            let ghost o = out.deep_view();
            out.push(more[j].clone());
            j += 1;
            assert(out.deep_view() =~= o.push(more@[j - 1]@));
            assert(out.deep_view() =~= before + more.deep_view().take(j as int));
        }
        assert(more.deep_view().take(j as int) =~= more.deep_view());
        i += 1;
    }
    assert(all.take(i as int) =~= all);
    out
}

/// A metadata line that declares an attribute.
pub open spec fn is_info_meta(line: Seq<char>) -> bool {
    starts_with(line, "##INFO"@)
}

pub open spec fn has_info_meta(lines: Seq<Seq<char>>) -> bool {
    exists|i: int| 0 <= i < lines.len() && is_info_meta(#[trigger] lines[i])
}

/// The lines, with the two declarations after the first `##INFO` line.
pub open spec fn with_declarations(lines: Seq<Seq<char>>) -> Seq<Seq<char>>
    decreases lines.len(),
{
    if lines.len() == 0 {
        Seq::empty()
    } else {
        with_declarations(lines.drop_last()) + if is_info_meta(lines.last()) && !has_info_meta(
            lines.drop_last(),
        ) {
            seq![lines.last(), status_declaration(), score_declaration()]
        } else {
            seq![lines.last()]
        }
    }
}

/// Merging a table without annotations changes no line of the catalog: the
/// output is the input with only the two declarations inserted, once, after
/// the first `##INFO` line.
pub proof fn lemma_merge_without_annotations(lines: Seq<Seq<char>>, t: DetectabilityTable)
    requires
        forall|k: VariantView| #[trigger] t.lookup(k) is None,
    ensures
        merged(lines, t).1 == with_declarations(lines),
        merged(lines, t).0.info_added == has_info_meta(lines),
    decreases lines.len(),
{
    if lines.len() > 0 {
        let prev = lines.drop_last();
        let l = lines.last();
        lemma_merge_without_annotations(prev, t);
        lemma_has_info_meta_last(lines);
        reveal_strlit("#CHROM");
        reveal_strlit("##INFO");
        reveal_strlit("#");
        if starts_with(l, "#CHROM"@) {
            assert(l.subrange(0, 6)[1] == "#CHROM"@[1]);
            assert(!is_info_meta(l)) by {
                if is_info_meta(l) {
                    assert(l.subrange(0, 6)[1] == "##INFO"@[1]);
                }
            }
        } else if is_info_meta(l) {
        } else if starts_with(l, "#"@) {
        } else {
            assert(merge_data_line(l, merged(prev, t).0.info_column, t) == l);
        }
    }
}

/// Whatever the annotations, the merge writes one line for each input line
/// plus the two declarations, once, where the input has an `##INFO` line.
pub proof fn lemma_merge_adds_declarations_once(lines: Seq<Seq<char>>, t: DetectabilityTable)
    ensures
        merged(lines, t).1.len() == lines.len() + if has_info_meta(lines) {
            2int
        } else {
            0int
        },
        merged(lines, t).0.info_added == has_info_meta(lines),
    decreases lines.len(),
{
    if lines.len() > 0 {
        let prev = lines.drop_last();
        let l = lines.last();
        lemma_merge_adds_declarations_once(prev, t);
        lemma_has_info_meta_last(lines);
        reveal_strlit("#CHROM");
        reveal_strlit("##INFO");
        if starts_with(l, "#CHROM"@) {
            assert(l.subrange(0, 6)[1] == "#CHROM"@[1]);
            assert(!is_info_meta(l)) by {
                if is_info_meta(l) {
                    assert(l.subrange(0, 6)[1] == "##INFO"@[1]);
                }
            }
        }
    }
}

proof fn lemma_join_tab_first(ps: Seq<Seq<char>>)
    requires
        ps.len() >= 1,
    ensures
        ps[0].len() <= join_tab(ps).len(),
        join_tab(ps).subrange(0, ps[0].len() as int) == ps[0],
        ps.len() >= 2 ==> ps[0].len() < join_tab(ps).len() && join_tab(ps)[ps[0].len() as int]
            == '\t',
    decreases ps.len(),
{
    reveal_strlit("\t");
    if ps.len() == 1 {
        assert(join_tab(ps).subrange(0, ps[0].len() as int) =~= ps[0]);
    } else {
        let d = ps.drop_last();
        lemma_join_tab_first(d);
        let j = join_tab(ps);
        assert(j == join_tab(d) + "\t"@ + ps.last());
        assert(j.subrange(0, ps[0].len() as int) =~= join_tab(d).subrange(0, ps[0].len() as int));
        if d.len() == 1 {
            assert(join_tab(d) == ps[0]);
            assert(j[ps[0].len() as int] == "\t"@[0]);
        }
    }
}

/// A data line stays a data line: the merge never makes it begin with `#`.
pub proof fn lemma_data_row_stays_data(
    line: Seq<char>,
    info_column: Option<usize>,
    t: DetectabilityTable,
)
    requires
        !starts_with(line, "#"@),
    ensures
        !starts_with(merge_data_line(line, info_column, t), "#"@),
{
    reveal_strlit("#");
    reveal_strlit(";DET=");
    let cols = split(line, '\t');
    let r = merge_data_line(line, info_column, t);
    if line.len() > 0 {
        assert(line[0] != '#') by {
            if line[0] == '#' {
                assert(line.subrange(0, 1) =~= "#"@);
            }
        }
    }
    if r != line {
        lemma_split_first(line, '\t');
        let (st, sc) = t.lookup(row_key(cols))->0;
        let idx = match info_column {
            Some(i) => i as int,
            None => 7,
        };
        let ps = cols.update(idx, annotate(cols[idx], st, sc));
        assert(r == join_tab(ps));
        lemma_join_tab_first(ps);
        let c0 = cols[0];
        if c0.len() > 0 {
            assert(c0[0] == line[0]) by {
                assert(line.subrange(0, c0.len() as int)[0] == line[0]);
            }
        }
        if idx == 0 {
            let a = annotate(c0, st, sc);
            assert(a == c0 + (";DET="@ + st + ";DETS="@ + sc));
            if c0.len() > 0 {
                assert(a[0] == c0[0]);
            } else {
                assert(a[0] == ";DET="@[0]);
            }
            assert(r[0] == a[0]) by {
                assert(r.subrange(0, a.len() as int)[0] == a[0]);
            }
        } else if c0.len() > 0 {
            assert(ps[0] == c0);
            assert(r[0] == c0[0]) by {
                assert(r.subrange(0, c0.len() as int)[0] == c0[0]);
            }
        } else {
            assert(ps[0] == c0);
            assert(r[0] == '\t');
        }
        assert(r.len() > 0);
        assert(!starts_with(r, "#"@)) by {
            if starts_with(r, "#"@) {
                assert(r.subrange(0, 1)[0] == "#"@[0]);
            }
        }
    }
}

/// The line the merge writes for each input line, the declarations aside.
pub open spec fn merged_rows(lines: Seq<Seq<char>>, t: DetectabilityTable) -> Seq<Seq<char>>
    decreases lines.len(),
{
    if lines.len() == 0 {
        Seq::empty()
    } else {
        let s = merged(lines.drop_last(), t).0;
        merged_rows(lines.drop_last(), t).push(merge_step(s, lines.last(), t).1[0])
    }
}

/// The rows, with the two declarations after the row of the first input
/// line that is an `##INFO` line.
pub open spec fn declared(lines: Seq<Seq<char>>, rows: Seq<Seq<char>>) -> Seq<Seq<char>>
    decreases lines.len(),
{
    if lines.len() == 0 || rows.len() == 0 {
        Seq::empty()
    } else {
        declared(lines.drop_last(), rows.drop_last()) + if is_info_meta(lines.last())
            && !has_info_meta(lines.drop_last()) {
            seq![rows.last(), status_declaration(), score_declaration()]
        } else {
            seq![rows.last()]
        }
    }
}

/// Whatever the annotations, the merge writes one row per input line, in
/// order: every header and metadata line (`#`) unchanged, every data line as
/// a data line (never beginning with `#`), and the two declarations once,
/// right after the first `##INFO` line.
pub proof fn lemma_merge_shape(lines: Seq<Seq<char>>, t: DetectabilityTable)
    ensures
        merged_rows(lines, t).len() == lines.len(),
        merged(lines, t).1 == declared(lines, merged_rows(lines, t)),
        forall|i: int|
            0 <= i < lines.len() && starts_with(lines[i], "#"@) ==> #[trigger] merged_rows(
                lines,
                t,
            )[i] == lines[i],
        forall|i: int|
            0 <= i < lines.len() && !starts_with(lines[i], "#"@) ==> !starts_with(
                #[trigger] merged_rows(lines, t)[i],
                "#"@,
            ),
    decreases lines.len(),
{
    if lines.len() > 0 {
        let prev = lines.drop_last();
        let l = lines.last();
        lemma_merge_shape(prev, t);
        lemma_merge_adds_declarations_once(prev, t);
        lemma_has_info_meta_last(lines);
        reveal_strlit("#CHROM");
        reveal_strlit("##INFO");
        reveal_strlit("#");
        let rows = merged_rows(lines, t);
        assert(rows.drop_last() =~= merged_rows(prev, t));
        if starts_with(l, "#CHROM"@) {
            assert(l.subrange(0, 6)[1] == "#CHROM"@[1]);
            assert(!is_info_meta(l)) by {
                if is_info_meta(l) {
                    assert(l.subrange(0, 6)[1] == "##INFO"@[1]);
                }
            }
        }
        if is_info_meta(l) {
            assert(starts_with(l, "#"@)) by {
                assert(l.subrange(0, 6)[0] == "##INFO"@[0]);
                assert(l.subrange(0, 1) =~= "#"@);
            }
        }
        if starts_with(l, "#CHROM"@) {
            assert(starts_with(l, "#"@)) by {
                assert(l.subrange(0, 6)[0] == "#CHROM"@[0]);
                assert(l.subrange(0, 1) =~= "#"@);
            }
        }
        assert forall|i: int|
            0 <= i < lines.len() && starts_with(lines[i], "#"@) implies #[trigger] rows[i]
            == lines[i] by {
            if i < lines.len() - 1 {
                assert(rows[i] == merged_rows(prev, t)[i]);
                assert(lines[i] == prev[i]);
            }
        }
        if !starts_with(l, "#"@) {
            lemma_data_row_stays_data(l, merged(prev, t).0.info_column, t);
            assert(!starts_with(l, "#CHROM"@)) by {
                if starts_with(l, "#CHROM"@) {
                    assert(l.subrange(0, 6)[0] == "#CHROM"@[0]);
                    assert(l.subrange(0, 1) =~= "#"@);
                }
            }
        }
        assert forall|i: int|
            0 <= i < lines.len() && !starts_with(lines[i], "#"@) implies !starts_with(
            #[trigger] rows[i],
            "#"@,
        ) by {
            if i < lines.len() - 1 {
                assert(rows[i] == merged_rows(prev, t)[i]);
                assert(lines[i] == prev[i]);
            }
        }
    }
}

proof fn lemma_has_info_meta_last(lines: Seq<Seq<char>>)
    requires
        lines.len() > 0,
    ensures
        has_info_meta(lines) == (has_info_meta(lines.drop_last()) || is_info_meta(lines.last())),
{
    let prev = lines.drop_last();
    if is_info_meta(lines.last()) {
        assert(lines[lines.len() - 1] == lines.last());
    }
    if has_info_meta(prev) {
        let i = choose|i: int| 0 <= i < prev.len() && is_info_meta(#[trigger] prev[i]);
        assert(lines[i] == prev[i]);
    }
    if has_info_meta(lines) {
        let i = choose|i: int| 0 <= i < lines.len() && is_info_meta(#[trigger] lines[i]);
        if i < lines.len() - 1 {
            assert(prev[i] == lines[i]);
        }
    }
}

/// The rows of tab-separated bytes read by the `csv` crate, the first row
/// being the header, each as its fields; none where the data is not
/// well-formed (UTF-8 text in which, by default, every row has as many
/// fields as the first).
pub uninterp spec fn tsv_rows(data: Seq<u8>) -> Option<Seq<Seq<Seq<char>>>>;

/// Relies on the `csv` reader (tab delimiter, header row, other settings as
/// the crate defaults them): its records, or its error, depend on the bytes
/// alone.
#[verifier::external_body]
fn read_tsv_records(data: &[u8]) -> (r: Result<Vec<Vec<String>>, csv::Error>)
    ensures
        r is Ok <==> tsv_rows(data@) is Some,
        r is Ok ==> r->Ok_0.deep_view() == tsv_rows(data@)->0,
{
    let mut reader = csv::ReaderBuilder::new().delimiter(b'\t').from_reader(data);
    let mut rows = Vec::new();
    for record in reader.records() {
        rows.push(record?.iter().map(|f| f.to_string()).collect());
    }
    Ok(rows)
}

/// The records of a score table given as its bytes: the rows after its
/// header.
pub fn score_table_records(data: &[u8]) -> (r: Result<Vec<Vec<String>>, VlodError>)
    ensures
        match tsv_rows(data@) {
            Some(rows) => r is Ok && r->Ok_0.deep_view() == rows,
            None => r is Err && r->Err_0 is Csv,
        },
{
    match read_tsv_records(data) {
        Ok(rows) => Ok(rows),
        Err(e) => Err(VlodError::Csv(e)),
    }
}

/// The annotation status of a detectability condition.
pub open spec fn status_of(condition: Seq<char>) -> Seq<char> {
    if condition == "Detectable"@ {
        "Yes"@
    } else {
        "No"@
    }
}

/// `Yes` for the condition `Detectable`, `No` for any other.
pub fn status_for_condition(condition: &str) -> (r: String)
    ensures
        r@ == status_of(condition@),
{
    if crate::text::same_text(condition, "Detectable") {
        "Yes".to_owned()
    } else {
        "No".to_owned()
    }
}

/// A key with its status and score text.
pub type Annotation = (VariantView, Seq<char>, Seq<char>);

/// The score given for record `i`, if any.
pub open spec fn score_at(scores: Seq<Option<Seq<char>>>, i: int) -> Option<Seq<char>> {
    if 0 <= i < scores.len() {
        scores[i]
    } else {
        None
    }
}

/// The annotations of score-table records, in order, or the message for
/// the first bad record: records of fewer than six fields are skipped; the
/// others need a valid position (field 1) and a score (field 4, as given in
/// `scores`); the status comes from the condition (field 5).
pub open spec fn score_annotations(
    records: Seq<Seq<Seq<char>>>,
    scores: Seq<Option<Seq<char>>>,
) -> Result<Seq<Annotation>, Seq<char>>
    decreases records.len(),
{
    if records.len() == 0 {
        Ok(Seq::empty())
    } else {
        match score_annotations(records.drop_last(), scores) {
            Err(m) => Err(m),
            Ok(es) => {
                let r = records.last();
                if r.len() < 6 {
                    Ok(es)
                } else {
                    match parse_u32(r[1]) {
                        None => Err("Invalid position: "@ + r[1]),
                        Some(p) => match score_at(scores, records.len() - 1) {
                            None => Err("Invalid score: "@ + r[4]),
                            Some(sc) => Ok(
                                es.push(
                                    (
                                        VariantView {
                                            chrom: r[0],
                                            pos: p,
                                            ref_allele: r[2],
                                            alt_allele: r[3],
                                        },
                                        status_of(r[5]),
                                        sc,
                                    ),
                                ),
                            ),
                        },
                    }
                }
            },
        }
    }
}

/// The annotation of the last of `es` with key `k`.
pub open spec fn last_annotation(es: Seq<Annotation>, k: VariantView) -> Option<(Seq<char>, Seq<char>)>
    decreases es.len(),
{
    if es.len() == 0 {
        None
    } else if es.last().0 == k {
        Some((es.last().1, es.last().2))
    } else {
        last_annotation(es.drop_last(), k)
    }
}

pub open spec fn opt_texts(v: Seq<Option<String>>) -> Seq<Option<Seq<char>>> {
    v.map_values(|o: Option<String>| opt_text(o))
}

fn invalid_field(msg: &str, field: &String) -> (r: VlodError)
    ensures
        is_invalid(Err::<(), VlodError>(r), msg@ + field@),
{
    let mut m = msg.to_owned();
    m.append(field.as_str());
    VlodError::InvalidVariant(m)
}

proof fn lemma_annotations_err_sticks(
    records: Seq<Seq<Seq<char>>>,
    scores: Seq<Option<Seq<char>>>,
    k: int,
)
    requires
        0 <= k <= records.len(),
        score_annotations(records.take(k), scores) is Err,
    ensures
        score_annotations(records, scores) == score_annotations(records.take(k), scores),
    decreases records.len(),
{
    if k < records.len() {
        assert(records.drop_last().take(k) =~= records.take(k));
        lemma_annotations_err_sticks(records.drop_last(), scores, k);
    } else {
        assert(records.take(k) =~= records);
    }
}

/// Builds the annotation table of a score table from its records and the
/// scores read from their fifth fields (`None` where a score is not a
/// number): a later record of a key replaces an earlier one.
pub fn table_from_score_records(records: &Vec<Vec<String>>, scores: &Vec<Option<String>>) -> (r:
    Result<DetectabilityTable, VlodError>)
    ensures
        match score_annotations(records.deep_view(), opt_texts(scores@)) {
            Ok(es) => r is Ok && forall|k: VariantView| #[trigger]
                r->Ok_0.lookup(k) == last_annotation(es, k),
            Err(m) => is_invalid(r, m),
        },
{
    let ghost recs = records.deep_view();
    let ghost sv = opt_texts(scores@);
    let mut table = DetectabilityTable::new();
    let mut i: usize = 0;
    assert(recs.take(0) =~= Seq::<Seq<Seq<char>>>::empty());
    while i < records.len()
        invariant
            i <= records@.len(),
            recs == records.deep_view(),
            sv == opt_texts(scores@),
            score_annotations(recs.take(i as int), sv) is Ok,
            forall|k: VariantView| #[trigger]
                table.lookup(k) == last_annotation(
                    score_annotations(recs.take(i as int), sv)->Ok_0,
                    k,
                ),
        decreases records.len() - i,
    {
        let ghost es = score_annotations(recs.take(i as int), sv)->Ok_0;
        assert(recs.take(i + 1).drop_last() =~= recs.take(i as int));
        assert(recs.take(i + 1).last() == recs[i as int]);
        let rec = &records[i];
        assert(rec.deep_view() == recs[i as int]);
        if rec.len() >= 6 {
            let pos = match parse_u32_text(rec[1].as_str()) {
                Some(p) => p,
                None => {
                    proof {
                        lemma_annotations_err_sticks(recs, sv, i + 1);
                    }
                    return Err(invalid_field("Invalid position: ", &rec[1]));
                },
            };
            let score = if i < scores.len() {
                match &scores[i] {
                    Some(sc) => sc.clone(),
                    None => {
                        proof {
                            lemma_annotations_err_sticks(recs, sv, i + 1);
                        }
                        return Err(invalid_field("Invalid score: ", &rec[4]));
                    },
                }
            } else {
                proof {
                    lemma_annotations_err_sticks(recs, sv, i + 1);
                }
                return Err(invalid_field("Invalid score: ", &rec[4]));
            };
            let status = status_for_condition(rec[5].as_str());
            let key = Variant::new(rec[0].clone(), pos, rec[2].clone(), rec[3].clone());
            let ghost a: Annotation = (key@, status@, score@);
            table.insert(key, status, score);
            assert(score_annotations(recs.take(i + 1), sv)->Ok_0 == es.push(a));
            assert forall|k: VariantView| #[trigger]
                table.lookup(k) == last_annotation(es.push(a), k) by {
                assert(es.push(a).drop_last() =~= es);
            }
        }
        i += 1;
    }
    assert(recs.take(i as int) =~= recs);
    Ok(table)
}

/// The annotations of scored variants, in order: each a variant, its
/// detectability condition and its score text.
pub open spec fn result_annotations(results: Seq<(Variant, String, String)>) -> Seq<Annotation> {
    results.map_values(|r: (Variant, String, String)| (r.0@, status_of(r.1@), r.2@))
}

/// Builds the annotation table of scored variants, given each with its
/// condition and score text; a later result for a key replaces an earlier one.
pub fn table_from_results(results: &Vec<(Variant, String, String)>) -> (r: DetectabilityTable)
    ensures
        forall|k: VariantView| #[trigger]
            r.lookup(k) == last_annotation(result_annotations(results@), k),
{
    let ghost all = result_annotations(results@);
    let mut table = DetectabilityTable::new();
    let mut i: usize = 0;
    while i < results.len()
        invariant
            i <= results@.len(),
            all == result_annotations(results@),
            forall|k: VariantView| #[trigger]
                table.lookup(k) == last_annotation(all.take(i as int), k),
        decreases results.len() - i,
    {
        let (v, cond, score) = &results[i];
        let status = status_for_condition(cond.as_str());
        let key = Variant::new(v.chrom.clone(), v.pos, v.ref_allele.clone(), v.alt_allele.clone());
        table.insert(key, status, score.clone());
        assert(all.take(i + 1).drop_last() =~= all.take(i as int));
        assert(all.take(i + 1).last() == all[i as int]);
        i += 1;
    }
    assert(all.take(i as int) =~= all);
    table
}

} // verus!
