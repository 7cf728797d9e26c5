//! Allele counting at one pileup column.

use crate::text::{push_char, split, split_text, lemma_split_nonempty};
use crate::Variant;
use vstd::prelude::*;
use vstd::string::StrSliceExecFns;

verus! {

/// Sum of the counts held in `s`.
pub open spec fn alt_sum(s: Seq<(String, u32)>) -> int
    decreases s.len(),
{
    if s.len() == 0 {
        0
    } else {
        alt_sum(s.drop_last()) + s.last().1
    }
}

/// The count held in `s` for allele `a`, zero where there is none.
pub open spec fn count_of(s: Seq<(String, u32)>, a: Seq<char>) -> nat
    decreases s.len(),
{
    if s.len() == 0 {
        0
    } else if s.last().0@ == a {
        s.last().1 as nat
    } else {
        count_of(s.drop_last(), a)
    }
}

/// No allele appears twice in `s`.
pub open spec fn keys_unique(s: Seq<(String, u32)>) -> bool {
    forall|i: int, j: int| 0 <= i < j < s.len() ==> s[i].0@ != s[j].0@
}

proof fn lemma_count_of_absent(s: Seq<(String, u32)>, a: Seq<char>)
    requires
        forall|i: int| 0 <= i < s.len() ==> s[i].0@ != a,
    ensures
        count_of(s, a) == 0,
    decreases s.len(),
{
    if s.len() > 0 {
        lemma_count_of_absent(s.drop_last(), a);
    }
}

proof fn lemma_entry_le_sum(s: Seq<(String, u32)>, i: int)
    requires
        0 <= i < s.len(),
    ensures
        s[i].1 <= alt_sum(s),
        alt_sum(s) >= 0,
    decreases s.len(),
{
    lemma_sum_nonneg(s.drop_last());
    if i < s.len() - 1 {
        lemma_entry_le_sum(s.drop_last(), i);
    }
}

proof fn lemma_sum_nonneg(s: Seq<(String, u32)>)
    ensures
        alt_sum(s) >= 0,
    decreases s.len(),
{
    if s.len() > 0 {
        lemma_sum_nonneg(s.drop_last());
    }
}

proof fn lemma_bump(s: Seq<(String, u32)>, i: int, a: Seq<char>)
    requires
        0 <= i < s.len(),
        keys_unique(s),
        s[i].1 < u32::MAX,
    ensures
        ({
            let t = s.update(i, (s[i].0, (s[i].1 + 1) as u32));
            &&& alt_sum(t) == alt_sum(s) + 1
            &&& count_of(t, a) == count_of(s, a) + if a == s[i].0@ {
                1nat
            } else {
                0nat
            }
            &&& keys_unique(t)
        }),
    decreases s.len(),
{
    let t = s.update(i, (s[i].0, (s[i].1 + 1) as u32));
    if i == s.len() - 1 {
        assert(t.drop_last() =~= s.drop_last());
        if a != s[i].0@ {
        } else {
        }
    } else {
        let s2 = s.drop_last();
        assert(t.drop_last() =~= s2.update(i, (s2[i].0, (s2[i].1 + 1) as u32)));
        lemma_bump(s2, i, a);
    }
}

/// Read counts at one position: reads that support the reference, reads
/// per alternate allele, and every counted increment.
#[derive(Debug, Clone)]
pub struct AlleleCounts {
    pub ref_count: u32,
    pub alt_counts: Vec<(String, u32)>,
    pub total_count: u32,
}

impl AlleleCounts {
    /// Every allele is listed once, and the total is the reference count
    /// plus the sum of the alternate counts.
    pub open spec fn wf(&self) -> bool {
        &&& keys_unique(self.alt_counts@)
        &&& self.total_count == self.ref_count + alt_sum(self.alt_counts@)
    }

    /// The number of reads counted for alternate allele `a`.
    pub open spec fn alt_count(&self, a: Seq<char>) -> nat {
        count_of(self.alt_counts@, a)
    }

    pub fn new() -> (r: Self)
        ensures
            r.wf(),
            r.ref_count == 0,
            r.total_count == 0,
            r.alt_counts@.len() == 0,
            forall|a: Seq<char>| r.alt_count(a) == 0,
    {
        AlleleCounts { ref_count: 0, alt_counts: Vec::new(), total_count: 0 }
    }

    pub fn add_ref(&mut self)
        requires
            old(self).wf(),
            old(self).total_count < u32::MAX,
        ensures
            final(self).wf(),
            final(self).ref_count == old(self).ref_count + 1,
            final(self).total_count == old(self).total_count + 1,
            final(self).alt_counts@ == old(self).alt_counts@,
    {
        proof {
            lemma_sum_nonneg(self.alt_counts@);
        }
        self.ref_count += 1;
        self.total_count += 1;
    }

    pub fn add_alt(&mut self, allele: String)
        requires
            old(self).wf(),
            old(self).total_count < u32::MAX,
        ensures
            final(self).wf(),
            final(self).ref_count == old(self).ref_count,
            final(self).total_count == old(self).total_count + 1,
            forall|a: Seq<char>| #[trigger]
                final(self).alt_count(a) == old(self).alt_count(a) + if a == allele@ {
                    1nat
                } else {
                    0nat
                },
    {
        proof {
            lemma_sum_nonneg(self.alt_counts@);
        }
        let mut i: usize = 0;
        while i < self.alt_counts.len()
            invariant
                i <= self.alt_counts@.len(),
                forall|j: int| 0 <= j < i ==> self.alt_counts@[j].0@ != allele@,
                *self == *old(self),
                old(self).wf(),
                old(self).total_count < u32::MAX,
            decreases self.alt_counts.len() - i,
        {
            if self.alt_counts[i].0 == allele {
                let ghost s = self.alt_counts@;
                proof {
                    lemma_entry_le_sum(s, i as int);
                    assert forall|a: Seq<char>| #![auto]
                        count_of(s.update(i as int, (s[i as int].0, (s[i as int].1 + 1) as u32)), a)
                            == count_of(s, a) + if a == s[i as int].0@ {
                            1nat
                        } else {
                            0nat
                        } by {
                        lemma_bump(s, i as int, a);
                    }
                    lemma_bump(s, i as int, allele@);
                }
                let key = self.alt_counts[i].0.clone();
                let n = self.alt_counts[i].1;
                self.alt_counts.set(i, (key, n + 1));
                self.total_count += 1;
                return ;
            }
            i += 1;
        }
        let ghost s = self.alt_counts@;
        proof {
            assert forall|a: Seq<char>| #![auto] a != allele@ implies count_of(
                s.push((allele, 1u32)),
                a,
            ) == count_of(s, a) by {
                assert(s.push((allele, 1u32)).drop_last() =~= s);
            }
            lemma_count_of_absent(s, allele@);
            assert(s.push((allele, 1u32)).drop_last() =~= s);
        }
        self.alt_counts.push((allele, 1));
        self.total_count += 1;
    }

    pub fn get_alt_count(&self, allele: &str) -> (r: u32)
        ensures
            r == self.alt_count(allele@),
    {
        let target = allele.to_owned();
        let mut i: usize = self.alt_counts.len();
        assert(self.alt_counts@.subrange(0, i as int) =~= self.alt_counts@);
        while i > 0
            invariant
                i <= self.alt_counts@.len(),
                target@ == allele@,
                count_of(self.alt_counts@, allele@) == count_of(
                    self.alt_counts@.subrange(0, i as int),
                    allele@,
                ),
            decreases i,
        {
            let ghost pre = self.alt_counts@.subrange(0, i as int);
            assert(pre.drop_last() =~= self.alt_counts@.subrange(0, i - 1));
            assert(pre.last() == self.alt_counts@[i - 1]);
            if self.alt_counts[i - 1].0 == target {
                return self.alt_counts[i - 1].1;
            }
            i -= 1;
        }
        0
    }
}

/// The indel that a read carries at a pileup column.
#[derive(Debug, Clone, Copy, PartialEq, Eq)]
pub enum IndelOp {
    NoIndel,
    Ins(u32),
    Del(u32),
}

/// What the classifier reads of one aligned read at the examined column.
#[derive(Debug, Clone)]
pub struct PileupRead {
    /// The column falls in a reference skip (a spliced-out region).
    pub is_refskip: bool,
    /// The read has a deletion at the column.
    pub is_del: bool,
    /// The read offset aligned to the column, if any.
    pub qpos: Option<usize>,
    /// The read's bases.
    pub seq: Vec<u8>,
    /// The indel that starts after the column.
    pub indel: IndelOp,
}

/// The largest length among `alts`; zero for none.
pub open spec fn max_len(alts: Seq<Seq<char>>) -> nat
    decreases alts.len(),
{
    if alts.len() == 0 {
        0
    } else {
        let m = max_len(alts.drop_last());
        let l = alts.last().len();
        if l > m {
            l
        } else {
            m
        }
    }
}

/// A variant is a substitution when its reference is as long as its longest
/// alternate; otherwise it is an insertion or deletion.
pub open spec fn is_substitution(ref_allele: Seq<char>, alts: Seq<Seq<char>>) -> bool {
    ref_allele.len() == max_len(alts)
}

pub open spec fn bases_as_chars(b: Seq<u8>) -> Seq<char> {
    b.map_values(|x: u8| x as char)
}

/// The `n` bases that a read shows from the column on: none where the read
/// has a deletion there, no aligned offset, or too few bases left.
pub open spec fn read_bases(read: PileupRead, n: nat) -> Option<Seq<char>> {
    if read.is_del {
        None
    } else {
        match read.qpos {
            None => None,
            Some(q) => if q + n <= read.seq@.len() {
                Some(bases_as_chars(read.seq@.subrange(q as int, q + n)))
            } else {
                None
            },
        }
    }
}

/// On the substitution path, the read supports the reference.
pub open spec fn supports_ref(read: PileupRead, ref_allele: Seq<char>) -> bool {
    read_bases(read, ref_allele.len()) == Some(ref_allele)
}

/// On the substitution path, the alternate allele that the read supports.
pub open spec fn supported_alt(read: PileupRead, ref_allele: Seq<char>, alts: Seq<Seq<char>>) -> Option<
    Seq<char>,
> {
    match read_bases(read, ref_allele.len()) {
        Some(w) => if w != ref_allele && alts.contains(w) {
            Some(w)
        } else {
            None
        },
        None => None,
    }
}

/// The change in length from the reference to `alt`.
pub open spec fn length_delta(ref_allele: Seq<char>, alt: Seq<char>) -> int {
    alt.len() - ref_allele.len()
}

/// An indel of the read's kind and size matches a length change `delta`.
pub open spec fn indel_matches(op: IndelOp, delta: int) -> bool {
    match op {
        IndelOp::Ins(n) => delta > 0 && n == delta,
        IndelOp::Del(n) => delta < 0 && n == -delta,
        IndelOp::NoIndel => false,
    }
}

/// How many times `a` is listed in `alts`.
pub open spec fn occurrences(alts: Seq<Seq<char>>, a: Seq<char>) -> nat
    decreases alts.len(),
{
    if alts.len() == 0 {
        0
    } else {
        occurrences(alts.drop_last(), a) + if alts.last() == a {
            1nat
        } else {
            0nat
        }
    }
}

/// How many of `alts` an indel `op` matches.
pub open spec fn n_matching(alts: Seq<Seq<char>>, ref_allele: Seq<char>, op: IndelOp) -> nat
    decreases alts.len(),
{
    if alts.len() == 0 {
        0
    } else {
        n_matching(alts.drop_last(), ref_allele, op) + if indel_matches(
            op,
            length_delta(ref_allele, alts.last()),
        ) {
            1nat
        } else {
            0nat
        }
    }
}

/// Reference increments that one read brings.
pub open spec fn ref_increment(read: PileupRead, ref_allele: Seq<char>, alts: Seq<Seq<char>>) -> nat {
    if read.is_refskip {
        0
    } else if is_substitution(ref_allele, alts) {
        if supports_ref(read, ref_allele) {
            1
        } else {
            0
        }
    } else if read.indel == IndelOp::NoIndel {
        alts.len()
    } else {
        0
    }
}

/// Increments of allele `a` that one read brings.
pub open spec fn alt_increment(
    read: PileupRead,
    ref_allele: Seq<char>,
    alts: Seq<Seq<char>>,
    a: Seq<char>,
) -> nat {
    if read.is_refskip {
        0
    } else if is_substitution(ref_allele, alts) {
        if supported_alt(read, ref_allele, alts) == Some(a) {
            1
        } else {
            0
        }
    } else if indel_matches(read.indel, length_delta(ref_allele, a)) {
        occurrences(alts, a)
    } else {
        0
    }
}

/// All increments that one read brings.
pub open spec fn total_increment(read: PileupRead, ref_allele: Seq<char>, alts: Seq<Seq<char>>) -> nat {
    if read.is_refskip {
        0
    } else if is_substitution(ref_allele, alts) {
        if supports_ref(read, ref_allele) {
            1
        } else if supported_alt(read, ref_allele, alts) is Some {
            1
        } else {
            0
        }
    } else if read.indel == IndelOp::NoIndel {
        alts.len()
    } else {
        n_matching(alts, ref_allele, read.indel)
    }
}

/// Whether `w` is one of `v`.
fn contains_text(v: &Vec<String>, w: &String) -> (r: bool)
    ensures
        r == v.deep_view().contains(w@),
{
    let mut i: usize = 0;
    while i < v.len()
        invariant
            i <= v@.len(),
            forall|j: int| 0 <= j < i ==> v@[j]@ != w@,
        decreases v.len() - i,
    {
        if v[i] == *w {
            assert(v.deep_view()[i as int] == w@);
            return true;
        }
        i += 1;
    }
    assert(!v.deep_view().contains(w@)) by {
        if v.deep_view().contains(w@) {
            let j = choose|j: int| 0 <= j < v.deep_view().len() && v.deep_view()[j] == w@;
            assert(v@[j]@ == w@);
        }
    }
    false
}

/// Classifies a read at a substitution (single- or multi-base): its bases
/// from the column on, as long as the reference, are compared with the
/// reference and with each alternate.
pub fn process_snv_mnv(
    read: &PileupRead,
    variant: &Variant,
    alt_alleles: &Vec<String>,
    counts: &mut AlleleCounts,
)
    requires
        old(counts).wf(),
        old(counts).total_count < u32::MAX,
    ensures
        final(counts).wf(),
        final(counts).ref_count == old(counts).ref_count + if supports_ref(
            *read,
            variant.ref_allele@,
        ) {
            1nat
        } else {
            0nat
        },
        final(counts).total_count == old(counts).total_count + if supports_ref(
            *read,
            variant.ref_allele@,
        ) || supported_alt(*read, variant.ref_allele@, alt_alleles.deep_view()) is Some {
            1nat
        } else {
            0nat
        },
        forall|a: Seq<char>| #[trigger]
            final(counts).alt_count(a) == old(counts).alt_count(a) + if supported_alt(
                *read,
                variant.ref_allele@,
                alt_alleles.deep_view(),
            ) == Some(a) {
                1nat
            } else {
                0nat
            },
{
    if read.is_del {
        return ;
    }
    let q = match read.qpos {
        None => {
            return ;
        },
        Some(q) => q,
    };
    let n = variant.ref_allele.as_str().unicode_len();
    if q > read.seq.len() || n > read.seq.len() - q {
        return ;
    }
    let end = q + n;
    let mut w = String::new();
    let mut i = q;
    while i < end
        invariant
            q <= i <= end,
            end == q + n,
            n == variant.ref_allele@.len(),
            end <= read.seq@.len(),
            w@ == bases_as_chars(read.seq@.subrange(q as int, i as int)),
        decreases end - i,
    {
        push_char(&mut w, read.seq[i] as char);
        i += 1;
        assert(w@ =~= bases_as_chars(read.seq@.subrange(q as int, i as int)));
    }
    assert(read_bases(*read, variant.ref_allele@.len()) == Some(w@));
    if w == variant.ref_allele {
        counts.add_ref();
    } else if contains_text(alt_alleles, &w) {
        counts.add_alt(w);
    }
}

/// Classifies a read at an insertion or deletion, once per alternate: a
/// read with no indel supports the reference for every alternate; a read
/// whose indel has the alternate's kind and length change supports it.
pub fn process_indel(
    read: &PileupRead,
    variant: &Variant,
    alt_alleles: &Vec<String>,
    counts: &mut AlleleCounts,
)
    requires
        old(counts).wf(),
        old(counts).total_count + alt_alleles@.len() <= u32::MAX,
    ensures
        final(counts).wf(),
        final(counts).ref_count == old(counts).ref_count + if read.indel == IndelOp::NoIndel {
            alt_alleles@.len()
        } else {
            0nat
        },
        final(counts).total_count == old(counts).total_count + if read.indel == IndelOp::NoIndel {
            alt_alleles@.len()
        } else {
            n_matching(alt_alleles.deep_view(), variant.ref_allele@, read.indel)
        },
        forall|a: Seq<char>| #[trigger]
            final(counts).alt_count(a) == old(counts).alt_count(a) + if indel_matches(
                read.indel,
                length_delta(variant.ref_allele@, a),
            ) {
                occurrences(alt_alleles.deep_view(), a)
            } else {
                0nat
            },
{
    let ghost alts = alt_alleles.deep_view();
    let ghost r = variant.ref_allele@;
    let ghost op = read.indel;
    let ref_len = variant.ref_allele.as_str().unicode_len();
    let mut j: usize = 0;
    assert(alts.take(0) =~= Seq::<Seq<char>>::empty());
    while j < alt_alleles.len()
        invariant
            j <= alt_alleles@.len(),
            alts == alt_alleles.deep_view(),
            r == variant.ref_allele@,
            op == read.indel,
            ref_len == r.len(),
            counts.wf(),
            old(counts).total_count + alt_alleles@.len() <= u32::MAX,
            counts.total_count <= old(counts).total_count + j,
            counts.ref_count == old(counts).ref_count + if op == IndelOp::NoIndel {
                j as nat
            } else {
                0nat
            },
            counts.total_count == old(counts).total_count + if op == IndelOp::NoIndel {
                j as nat
            } else {
                n_matching(alts.take(j as int), r, op)
            },
            forall|a: Seq<char>| #[trigger]
                counts.alt_count(a) == old(counts).alt_count(a) + if indel_matches(
                    op,
                    length_delta(r, a),
                ) {
                    occurrences(alts.take(j as int), a)
                } else {
                    0nat
                },
        decreases alt_alleles.len() - j,
    {
        let ghost pre = alts.take(j as int);
        let ghost post = alts.take(j + 1);
        assert(post.drop_last() =~= pre);
        assert(post.last() == alt_alleles@[j as int]@);
        let alt_len = alt_alleles[j].as_str().unicode_len();
        let hit = match read.indel {
            IndelOp::Ins(n) => alt_len > ref_len && (n as usize) == alt_len - ref_len,
            IndelOp::Del(n) => alt_len < ref_len && (n as usize) == ref_len - alt_len,
            IndelOp::NoIndel => false,
        };
        assert(hit == indel_matches(op, length_delta(r, post.last())));
        match read.indel {
            IndelOp::NoIndel => {
                counts.add_ref();
            },
            _ => {
                if hit {
                    counts.add_alt(alt_alleles[j].clone());
                }
            },
        }
        j += 1;
    }
    assert(alts.take(j as int) =~= alts);
}

/// The largest character count among `alts`.
fn max_allele_len(alts: &Vec<String>) -> (r: usize)
    ensures
        r == max_len(alts.deep_view()),
{
    let ghost v = alts.deep_view();
    let mut m: usize = 0;
    let mut j: usize = 0;
    assert(v.take(0) =~= Seq::<Seq<char>>::empty());
    while j < alts.len()
        invariant
            j <= alts@.len(),
            v == alts.deep_view(),
            m == max_len(v.take(j as int)),
        decreases alts.len() - j,
    {
        assert(v.take(j + 1).drop_last() =~= v.take(j as int));
        let l = alts[j].as_str().unicode_len();
        if l > m {
            m = l;
        }
        j += 1;
    }
    assert(v.take(j as int) =~= v);
    m
}

/// Classifies one read overlapping the examined column and updates the
/// counts: reads in a reference skip are passed over; otherwise the read
/// goes down the substitution or the indel path, as the variant's allele
/// lengths decide.
pub fn classify_read(
    read: &PileupRead,
    variant: &Variant,
    alt_alleles: &Vec<String>,
    counts: &mut AlleleCounts,
)
    requires
        old(counts).wf(),
        old(counts).total_count < u32::MAX,
        old(counts).total_count + alt_alleles@.len() <= u32::MAX,
    ensures
        final(counts).wf(),
        final(counts).ref_count == old(counts).ref_count + ref_increment(
            *read,
            variant.ref_allele@,
            alt_alleles.deep_view(),
        ),
        final(counts).total_count == old(counts).total_count + total_increment(
            *read,
            variant.ref_allele@,
            alt_alleles.deep_view(),
        ),
        forall|a: Seq<char>| #[trigger]
            final(counts).alt_count(a) == old(counts).alt_count(a) + alt_increment(
                *read,
                variant.ref_allele@,
                alt_alleles.deep_view(),
                a,
            ),
{
    if read.is_refskip {
        return ;
    }
    let ref_len = variant.ref_allele.as_str().unicode_len();
    let alt_len = max_allele_len(alt_alleles);
    if ref_len == alt_len {
        process_snv_mnv(read, variant, alt_alleles, counts);
    } else {
        process_indel(read, variant, alt_alleles, counts);
    }
}

/// The alternates listed in a variant's alternate field.
pub open spec fn alt_list(variant: Variant) -> Seq<Seq<char>> {
    split(variant.alt_allele@, ',')
}

/// The alternates of a variant, one per comma-separated entry.
pub fn alt_alleles_of(variant: &Variant) -> (r: Vec<String>)
    ensures
        r.deep_view() == alt_list(*variant),
        r@.len() >= 1,
{
    proof {
        lemma_split_nonempty(variant.alt_allele@, ',');
    }
    split_text(variant.alt_allele.as_str(), ',')
}

/// The 0-based half-open window fetched for a variant: it starts one before
/// the 1-based position and reaches past it by the longest of the reference
/// and the alternates, so that indels are seen whole (both ends saturate).
pub open spec fn window(variant: Variant) -> (u32, u32) {
    let l = if variant.ref_allele@.len() > max_len(alt_list(variant)) {
        variant.ref_allele@.len()
    } else {
        max_len(alt_list(variant))
    };
    (
        if variant.pos >= 1 {
            (variant.pos - 1) as u32
        } else {
            0u32
        },
        if variant.pos + l <= u32::MAX {
            (variant.pos + l) as u32
        } else {
            u32::MAX
        },
    )
}

pub fn fetch_window(variant: &Variant) -> (r: (u32, u32))
    ensures
        r == window(*variant),
{
    let alts = alt_alleles_of(variant);
    let ref_len = variant.ref_allele.as_str().unicode_len();
    let alt_len = max_allele_len(&alts);
    let l = if ref_len > alt_len {
        ref_len
    } else {
        alt_len
    };
    let start = if variant.pos >= 1 {
        variant.pos - 1
    } else {
        0
    };
    let end = if l <= (u32::MAX - variant.pos) as usize {
        variant.pos + (l as u32)
    } else {
        u32::MAX
    };
    (start, end)
}

/// Only the column at the variant's own 0-based position is examined.
pub fn is_target_column(column_pos: u32, variant: &Variant) -> (r: bool)
    ensures
        r == (variant.pos >= 1 && column_pos == variant.pos - 1),
{
    variant.pos >= 1 && column_pos == variant.pos - 1
}

/// Reference increments over the reads of a column.
pub open spec fn column_ref(reads: Seq<PileupRead>, ref_allele: Seq<char>, alts: Seq<Seq<char>>) -> nat
    decreases reads.len(),
{
    if reads.len() == 0 {
        0
    } else {
        column_ref(reads.drop_last(), ref_allele, alts) + ref_increment(reads.last(), ref_allele, alts)
    }
}

/// Increments of allele `a` over the reads of a column.
pub open spec fn column_alt(
    reads: Seq<PileupRead>,
    ref_allele: Seq<char>,
    alts: Seq<Seq<char>>,
    a: Seq<char>,
) -> nat
    decreases reads.len(),
{
    if reads.len() == 0 {
        0
    } else {
        column_alt(reads.drop_last(), ref_allele, alts, a) + alt_increment(
            reads.last(),
            ref_allele,
            alts,
            a,
        )
    }
}

/// All increments over the reads of a column.
pub open spec fn column_total(reads: Seq<PileupRead>, ref_allele: Seq<char>, alts: Seq<Seq<char>>) -> nat
    decreases reads.len(),
{
    if reads.len() == 0 {
        0
    } else {
        column_total(reads.drop_last(), ref_allele, alts) + total_increment(
            reads.last(),
            ref_allele,
            alts,
        )
    }
}

proof fn lemma_n_matching_le(alts: Seq<Seq<char>>, ref_allele: Seq<char>, op: IndelOp)
    ensures
        n_matching(alts, ref_allele, op) <= alts.len(),
    decreases alts.len(),
{
    if alts.len() > 0 {
        lemma_n_matching_le(alts.drop_last(), ref_allele, op);
    }
}

/// Counts the reads of the examined column for a variant, each read as
/// `classify_read` does.
pub fn count_column(variant: &Variant, reads: &Vec<PileupRead>) -> (c: AlleleCounts)
    requires
        reads@.len() * alt_list(*variant).len() <= u32::MAX,
    ensures
        c.wf(),
        c.ref_count == column_ref(reads@, variant.ref_allele@, alt_list(*variant)),
        c.total_count == column_total(reads@, variant.ref_allele@, alt_list(*variant)),
        forall|a: Seq<char>| #[trigger]
            c.alt_count(a) == column_alt(reads@, variant.ref_allele@, alt_list(*variant), a),
{
    let alts = alt_alleles_of(variant);
    let ghost k = alts@.len();
    let ghost av = alts.deep_view();
    let ghost r = variant.ref_allele@;
    let ghost n = reads@.len();
    let mut counts = AlleleCounts::new();
    let mut i: usize = 0;
    assert(reads@.take(0) =~= Seq::<PileupRead>::empty());
    while i < reads.len()
        invariant
            i <= reads@.len(),
            n == reads@.len(),
            k == alts@.len(),
            k >= 1,
            av == alts.deep_view(),
            av == alt_list(*variant),
            r == variant.ref_allele@,
            n * k <= u32::MAX,
            counts.wf(),
            counts.total_count <= i * k,
            counts.ref_count == column_ref(reads@.take(i as int), r, av),
            counts.total_count == column_total(reads@.take(i as int), r, av),
            forall|a: Seq<char>| #[trigger]
                counts.alt_count(a) == column_alt(reads@.take(i as int), r, av, a),
        decreases reads.len() - i,
    {
        let ghost pre = reads@.take(i as int);
        let ghost post = reads@.take(i + 1);
        assert(post.drop_last() =~= pre);
        assert(post.last() == reads@[i as int]);
        assert(i * k + k <= n * k) by (nonlinear_arith)
            requires
                i < n,
                k >= 1,
        ;
        proof {
            lemma_n_matching_le(av, r, reads@[i as int].indel);
        }
        assert(total_increment(reads@[i as int], r, av) <= k);
        classify_read(&reads[i], variant, &alts, &mut counts);
        assert(i * k + k == (i + 1) * k) by (nonlinear_arith);
        i += 1;
    }
    assert(reads@.take(i as int) =~= reads@);
    counts
}

} // verus!
