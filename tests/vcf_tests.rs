use vlod_rs::vcf::{
    is_gzip_magic, record_from_stream_line, variants_from_lines, CatalogReader, VcfColumnIndices,
    VcfRecord,
};
use vlod_rs::{Variant, VlodError};

fn lines(text: &[&str]) -> Vec<String> {
    text.iter().map(|s| s.to_string()).collect()
}

fn message(e: VlodError) -> String {
    match e {
        VlodError::InvalidVariant(m) => m,
        VlodError::Csv(e) => panic!("unexpected csv error {:?}", e),
    }
}

#[test]
fn test_vcf_record_from_line() {
    let line = "chr1\t100\t.\tA\tT\t.\tPASS\tDP=30";
    let record = VcfRecord::from_line(line).unwrap();

    assert_eq!(record.variant.chrom, "chr1");
    assert_eq!(record.variant.pos, 100);
    assert_eq!(record.variant.ref_allele, "A");
    assert_eq!(record.variant.alt_allele, "T");
    assert_eq!(record.info, "DP=30");
}

#[test]
fn test_vcf_record_to_line() {
    let variant = Variant::new("chr1".to_string(), 100, "A".to_string(), "T".to_string());
    let record = VcfRecord {
        variant,
        info: "DP=30".to_string(),
        format: None,
        samples: Vec::new(),
    };

    let line = record.to_line();
    assert_eq!(line, "chr1\t100\t.\tA\tT\t.\tPASS\tDP=30");
}

#[test]
fn record_with_format_and_samples_round_trips() {
    let line = "chr3\t4294967295\trs1\tAC\tA\t50\tq10\tDP=9\tGT\t0/1\t1/1";
    let record = VcfRecord::from_line(line).unwrap();
    assert_eq!(record.variant.pos, 4294967295);
    assert_eq!(record.format, Some("GT".to_string()));
    assert_eq!(record.samples, vec!["0/1".to_string(), "1/1".to_string()]);
    assert_eq!(record.to_line(), "chr3\t4294967295\t.\tAC\tA\t.\tPASS\tDP=9\tGT\t0/1\t1/1");
}

#[test]
fn from_line_rejects_short_rows_and_bad_positions() {
    let e = VcfRecord::from_line("chr1\t100\t.\tA\tT").unwrap_err();
    assert_eq!(message(e), "Invalid VCF line format: chr1\t100\t.\tA\tT");
    let e = VcfRecord::from_line("chr1\t4294967296\t.\tA\tT\t.\tPASS\tDP=1").unwrap_err();
    assert_eq!(message(e), "Invalid position: 4294967296");
    let e = VcfRecord::from_line("chr1\t-5\t.\tA\tT\t.\tPASS\tDP=1").unwrap_err();
    assert_eq!(message(e), "Invalid position: -5");
    assert_eq!(VcfRecord::from_line("chr1\t+5\t.\tA\tT\t.\tPASS\tDP=1").unwrap().variant.pos, 5);
}

#[test]
fn header_locates_columns_by_name() {
    let ix = VcfColumnIndices::from_header("#CHROM\tPOS\tID\tREF\tALT\tQUAL\tFILTER\tINFO\tFORMAT\tS1\n")
        .unwrap();
    assert_eq!((ix.chrom, ix.pos, ix.ref_allele, ix.alt, ix.info), (0, 1, 3, 4, 7));
    assert_eq!(ix.format, Some(8));
    assert_eq!(ix.samples_start, 9);

    let ix = VcfColumnIndices::from_header("POS\tCHROM\tID\tALT\tREF\tINFO\tQUAL\tFILTER").unwrap();
    assert_eq!((ix.chrom, ix.pos, ix.ref_allele, ix.alt, ix.info), (1, 0, 4, 3, 5));
    assert_eq!(ix.format, None);
    assert_eq!(ix.samples_start, 8);

    let e = VcfColumnIndices::from_header("#CHROM\tPOS\tID\tREF\tALT\tQUAL\tFILTER").unwrap_err();
    assert_eq!(message(e), "INFO column not found in VCF header");
}

#[test]
fn row_read_with_header_layout() {
    let ix = VcfColumnIndices::from_header("POS\tCHROM\tID\tALT\tREF\tINFO\tQUAL\tFILTER").unwrap();
    let r = VcfRecord::from_line_with_indices("7\tchrX\t.\tG\tA\tDP=3\t.\tPASS", &ix).unwrap();
    assert_eq!(r.variant, Variant::new("chrX".into(), 7, "A".into(), "G".into()));
    assert_eq!(r.info, "DP=3");
    let e = VcfRecord::from_line_with_indices("7\tchrX\t.\tG\tA", &ix).unwrap_err();
    assert_eq!(message(e), "Invalid VCF line format - not enough columns: 7\tchrX\t.\tG\tA");
}

#[test]
fn test_read_vcf_variants() {
    let text = lines(&[
        "##fileformat=VCFv4.2",
        "#CHROM\tPOS\tID\tREF\tALT\tQUAL\tFILTER\tINFO",
        "chr1\t100\t.\tA\tT\t.\tPASS\tDP=30",
        "chr2\t200\t.\tG\tC,A\t.\tPASS\tDP=40",
    ]);

    let variants = variants_from_lines(&text);
    assert_eq!(variants.len(), 3);

    assert_eq!(variants[0].chrom, "chr1");
    assert_eq!(variants[0].alt_allele, "T");

    assert_eq!(variants[1].chrom, "chr2");
    assert_eq!(variants[1].alt_allele, "C");

    assert_eq!(variants[2].chrom, "chr2");
    assert_eq!(variants[2].alt_allele, "A");
}

#[test]
fn multi_allelic_row_expands_per_alternate() {
    let text = lines(&["chr2\t200\t.\tG\tC,A\t.\tPASS\tDP=40"]);
    let variants = variants_from_lines(&text);
    assert_eq!(
        variants,
        vec![
            Variant::new("chr2".into(), 200, "G".into(), "C".into()),
            Variant::new("chr2".into(), 200, "G".into(), "A".into()),
        ]
    );
}

#[test]
fn test_combined_workflow_empty_vcf() {
    let text = lines(&["##fileformat=VCFv4.2", "#CHROM\tPOS\tID\tREF\tALT\tQUAL\tFILTER\tINFO"]);
    let variants = variants_from_lines(&text);
    assert!(variants.is_empty());
}

#[test]
fn malformed_rows_are_skipped_and_only_the_first_header_counts() {
    let text = lines(&[
        "  #CHROM\tPOS\tID\tREF\tALT\tQUAL\tFILTER\tINFO  ",
        "chr1\tx\t.\tA\tT\t.\tPASS\tDP=30",
        "chr1\t5",
        "",
        "  chr1\t6\t.\tA\tT\t.\tPASS\tDP=30\r",
    ]);
    let variants = variants_from_lines(&text);
    assert_eq!(variants, vec![Variant::new("chr1".into(), 6, "A".into(), "T".into())]);

    let text = lines(&[
        "#comment line",
        "POS\tCHROM\tID\tREF\tALT\tQUAL\tFILTER\tINFO",
        "chr1\t6\t.\tA\tT\t.\tPASS\tDP=30",
    ]);
    let variants = variants_from_lines(&text);
    assert_eq!(variants, vec![Variant::new("chr1".into(), 6, "A".into(), "T".into())]);

    let mut reader = CatalogReader::new();
    let mut out = Vec::new();
    let e = reader.read_line("#comment line", &mut out).unwrap();
    assert_eq!(message(e), "CHROM column not found in VCF header");
    assert!(reader.header_seen && reader.layout.is_none());
}

#[test]
fn stream_lines_skip_headers_and_blanks() {
    assert!(record_from_stream_line("##x").is_none());
    assert!(record_from_stream_line("   \n").is_none());
    let r = record_from_stream_line("chr1\t100\t.\tA\tT\t.\tPASS\tDP=30\n").unwrap().unwrap();
    assert_eq!(r.info, "DP=30");
    assert!(record_from_stream_line("chr1\t100").unwrap().is_err());
}

#[test]
fn test_is_gzipped() {
    assert!(!is_gzip_magic(b"test content\n"));
    assert!(is_gzip_magic(&[0x1f, 0x8b]));
    assert!(!is_gzip_magic(&[0x1f]));
    assert!(!is_gzip_magic(&[]));
}

#[test]
fn catalog_lines_report_skipped_rows() {
    let mut reader = CatalogReader::new();
    let mut out = Vec::new();
    assert!(reader.read_line("##meta", &mut out).is_none());
    let skipped = reader.read_line("chr1\tx\t.\tA\tT\t.\tPASS\t.", &mut out).unwrap();
    assert_eq!(message(skipped), "Invalid position: x");
    assert!(out.is_empty());
    let h = "#CHROM\tPOS\tID\tREF\tALT\tQUAL\tFILTER\tINFO";
    assert!(reader.read_line(h, &mut out).is_none());
    assert_eq!(reader.layout.map(|ix| ix.info), Some(7));
    assert!(reader.read_line("#CHROM\tPOS", &mut out).is_none());
    assert_eq!(reader.layout.map(|ix| ix.info), Some(7));
    assert!(reader.read_line("c\t3\t.\tA\tT,G\t.\t.\t.", &mut out).is_none());
    assert_eq!(out.len(), 2);
}
