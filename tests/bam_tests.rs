use vlod_rs::bam::{
    alt_alleles_of, classify_read, count_column, fetch_window, is_target_column, process_indel,
    process_snv_mnv, AlleleCounts, IndelOp, PileupRead,
};
use vlod_rs::Variant;

fn vaf(counts: &AlleleCounts, allele: &str) -> f64 {
    if counts.total_count == 0 {
        0.0
    } else {
        counts.get_alt_count(allele) as f64 / counts.total_count as f64
    }
}

fn read(seq: &str, qpos: Option<usize>, indel: IndelOp) -> PileupRead {
    PileupRead {
        is_refskip: false,
        is_del: false,
        qpos,
        seq: seq.as_bytes().to_vec(),
        indel,
    }
}

fn variant(pos: u32, r: &str, a: &str) -> Variant {
    Variant::new("chr1".to_string(), pos, r.to_string(), a.to_string())
}

#[test]
fn test_allele_counts() {
    let mut counts = AlleleCounts::new();

    counts.add_ref();
    counts.add_ref();
    counts.add_alt("T".to_string());

    assert_eq!(counts.ref_count, 2);
    assert_eq!(counts.get_alt_count("T"), 1);
    assert_eq!(counts.total_count, 3);
    assert_eq!(vaf(&counts, "T"), 1.0 / 3.0);
}

#[test]
fn test_vaf_calculation() {
    let mut counts = AlleleCounts::new();
    counts.add_ref();
    counts.add_alt("G".to_string());
    counts.add_alt("G".to_string());

    assert_eq!(vaf(&counts, "G"), 2.0 / 3.0);
    assert_eq!(vaf(&counts, "T"), 0.0);
}

#[test]
fn test_empty_allele_counts() {
    let counts = AlleleCounts::new();
    assert_eq!(vaf(&counts, "A"), 0.0);
    assert_eq!(counts.total_count, 0);
}

#[test]
fn total_is_reference_plus_alternates() {
    let mut counts = AlleleCounts::new();
    counts.add_alt("A".to_string());
    counts.add_ref();
    counts.add_alt("C".to_string());
    counts.add_alt("A".to_string());
    assert_eq!(counts.alt_counts.len(), 2);
    let alt_sum: u32 = counts.alt_counts.iter().map(|(_, n)| *n).sum();
    assert_eq!(counts.total_count, counts.ref_count + alt_sum);
    assert_eq!(counts.get_alt_count("A"), 2);
    assert_eq!(counts.get_alt_count("G"), 0);
}

#[test]
fn substitution_reads_are_compared_with_each_allele() {
    let v = variant(100, "A", "T,G");
    let alts = alt_alleles_of(&v);
    let mut c = AlleleCounts::new();
    process_snv_mnv(&read("CAT", Some(1), IndelOp::NoIndel), &v, &alts, &mut c);
    process_snv_mnv(&read("CTT", Some(1), IndelOp::NoIndel), &v, &alts, &mut c);
    process_snv_mnv(&read("CGT", Some(1), IndelOp::NoIndel), &v, &alts, &mut c);
    process_snv_mnv(&read("CCT", Some(1), IndelOp::NoIndel), &v, &alts, &mut c);
    process_snv_mnv(&read("Ct", Some(1), IndelOp::NoIndel), &v, &alts, &mut c);
    process_snv_mnv(&read("C", Some(1), IndelOp::NoIndel), &v, &alts, &mut c);
    process_snv_mnv(&read("CAT", None, IndelOp::NoIndel), &v, &alts, &mut c);
    let mut deleted = read("CAT", Some(1), IndelOp::NoIndel);
    deleted.is_del = true;
    process_snv_mnv(&deleted, &v, &alts, &mut c);
    assert_eq!(c.ref_count, 1);
    assert_eq!(c.get_alt_count("T"), 1);
    assert_eq!(c.get_alt_count("G"), 1);
    assert_eq!(c.total_count, 3);
}

#[test]
fn multi_base_substitution_needs_enough_bases() {
    let v = variant(10, "AC", "GT");
    let alts = alt_alleles_of(&v);
    let mut c = AlleleCounts::new();
    process_snv_mnv(&read("xGT", Some(1), IndelOp::NoIndel), &v, &alts, &mut c);
    process_snv_mnv(&read("xAC", Some(1), IndelOp::NoIndel), &v, &alts, &mut c);
    process_snv_mnv(&read("xG", Some(1), IndelOp::NoIndel), &v, &alts, &mut c);
    assert_eq!((c.ref_count, c.get_alt_count("GT"), c.total_count), (1, 1, 2));
}

#[test]
fn indel_reads_count_per_alternate() {
    let v = variant(50, "A", "AT,ATT");
    let alts = alt_alleles_of(&v);
    let mut c = AlleleCounts::new();
    process_indel(&read("AAT", Some(0), IndelOp::NoIndel), &v, &alts, &mut c);
    assert_eq!((c.ref_count, c.total_count), (2, 2));
    process_indel(&read("AAT", Some(0), IndelOp::Ins(2)), &v, &alts, &mut c);
    assert_eq!(c.get_alt_count("ATT"), 1);
    assert_eq!(c.get_alt_count("AT"), 0);
    process_indel(&read("AAT", Some(0), IndelOp::Del(1)), &v, &alts, &mut c);
    assert_eq!(c.total_count, 3);

    let del = variant(50, "ACG", "A");
    let alts = alt_alleles_of(&del);
    let mut c = AlleleCounts::new();
    process_indel(&read("A", Some(0), IndelOp::Del(2)), &del, &alts, &mut c);
    process_indel(&read("A", Some(0), IndelOp::Del(1)), &del, &alts, &mut c);
    process_indel(&read("A", Some(0), IndelOp::Ins(2)), &del, &alts, &mut c);
    assert_eq!((c.ref_count, c.get_alt_count("A"), c.total_count), (0, 1, 1));
}

#[test]
fn classify_read_picks_the_path_and_skips_refskips() {
    let snv = variant(100, "A", "T");
    let alts = alt_alleles_of(&snv);
    let mut c = AlleleCounts::new();
    let mut skipped = read("T", Some(0), IndelOp::NoIndel);
    skipped.is_refskip = true;
    classify_read(&skipped, &snv, &alts, &mut c);
    classify_read(&read("T", Some(0), IndelOp::Ins(1)), &snv, &alts, &mut c);
    assert_eq!((c.get_alt_count("T"), c.total_count), (1, 1));

    let ins = variant(100, "A", "AG");
    let alts = alt_alleles_of(&ins);
    let mut c = AlleleCounts::new();
    classify_read(&read("T", Some(0), IndelOp::Ins(1)), &ins, &alts, &mut c);
    classify_read(&read("A", Some(0), IndelOp::NoIndel), &ins, &alts, &mut c);
    assert_eq!((c.ref_count, c.get_alt_count("AG"), c.total_count), (1, 1, 2));
}

#[test]
fn column_counts() {
    let v = variant(100, "A", "T");
    let reads = vec![
        read("A", Some(0), IndelOp::NoIndel),
        read("T", Some(0), IndelOp::NoIndel),
        read("T", Some(0), IndelOp::NoIndel),
        read("N", Some(0), IndelOp::NoIndel),
    ];
    let c = count_column(&v, &reads);
    assert_eq!((c.ref_count, c.get_alt_count("T"), c.total_count), (1, 2, 3));
}

#[test]
fn window_and_target_column() {
    assert_eq!(fetch_window(&variant(100, "A", "T")), (99, 101));
    assert_eq!(fetch_window(&variant(100, "A", "ATTT,AT")), (99, 104));
    assert_eq!(fetch_window(&variant(100, "ACGTA", "A")), (99, 105));
    assert_eq!(fetch_window(&variant(0, "A", "T")), (0, 1));
    assert_eq!(fetch_window(&variant(u32::MAX, "AC", "T")), (u32::MAX - 1, u32::MAX));
    assert!(is_target_column(99, &variant(100, "A", "T")));
    assert!(!is_target_column(100, &variant(100, "A", "T")));
    assert!(!is_target_column(0, &variant(0, "A", "T")));
}
