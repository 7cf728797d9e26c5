use vlod_rs::merge::{
    merge_lines, score_table_records, status_for_condition, table_from_results,
    table_from_score_records, DetectabilityTable, MergeState,
};
use vlod_rs::lod::{score_table_header, score_table_row};
use vlod_rs::{Variant, VlodError};

fn lines(text: &[&str]) -> Vec<String> {
    text.iter().map(|s| s.to_string()).collect()
}

fn scores_of(records: &[Vec<String>]) -> Vec<Option<String>> {
    records
        .iter()
        .map(|r| r.get(4).and_then(|s| s.parse::<f64>().ok()).map(|f| f.to_string()))
        .collect()
}

fn table_from_text(text: &str) -> Result<DetectabilityTable, VlodError> {
    let records = score_table_records(text.as_bytes())?;
    let scores = scores_of(&records);
    table_from_score_records(&records, &scores)
}

const SCORE_HEADER: &str =
    "Chrom\tPos\tRef\tAlt\tDetectability_Score\tDetectability_Condition\tCoverage\tVariant_Reads";

fn catalog() -> Vec<String> {
    lines(&[
        "##fileformat=VCFv4.2",
        "##INFO=<ID=DP,Number=1,Type=Integer,Description=\"Total Depth\">",
        "#CHROM\tPOS\tID\tREF\tALT\tQUAL\tFILTER\tINFO",
        "chr1\t100\t.\tA\tT\t.\tPASS\tDP=30",
    ])
}

#[test]
fn test_read_detectability_results() {
    let text = format!(
        "{}\nchr1\t100\tA\tT\t3.5\tDetectable\t30\t15\nchr2\t200\tG\tC\t1.2\tNon-detectable\t20\t5\n",
        SCORE_HEADER
    );
    let table = table_from_text(&text).unwrap();
    assert_eq!(table.get("chr1", 100, "A", "T"), Some(("Yes".to_string(), "3.5".to_string())));
    assert_eq!(table.get("chr2", 200, "G", "C"), Some(("No".to_string(), "1.2".to_string())));
    assert_eq!(table.get("chr2", 200, "G", "A"), None);
}

#[test]
fn score_table_errors() {
    let text = format!("{}\nchr1\tx\tA\tT\t3.5\tDetectable\t30\t15\n", SCORE_HEADER);
    match table_from_text(&text) {
        Err(VlodError::InvalidVariant(m)) => assert_eq!(m, "Invalid position: x"),
        _ => panic!("expected an invalid position"),
    }
    let text = format!("{}\nchr1\t1\tA\tT\tabc\tDetectable\t30\t15\n", SCORE_HEADER);
    match table_from_text(&text) {
        Err(VlodError::InvalidVariant(m)) => assert_eq!(m, "Invalid score: abc"),
        _ => panic!("expected an invalid score"),
    }
    let text = format!("{}\nchr1\t1\tA\n", SCORE_HEADER);
    assert!(matches!(table_from_text(&text), Err(VlodError::Csv(_))));
    let mut data = format!("{}\nchr1\t1\tA\tT\t3.5\tDetectable\t30\t15\n", SCORE_HEADER).into_bytes();
    data[SCORE_HEADER.len() + 1] = 0xff;
    assert!(matches!(score_table_records(&data), Err(VlodError::Csv(_))));
}

#[test]
fn test_create_detectability_map() {
    let variant = Variant::new("chr1".to_string(), 100, "A".to_string(), "T".to_string());
    let table = table_from_results(&vec![(variant, "Detectable".to_string(), 3.5f64.to_string())]);
    assert_eq!(table.get("chr1", 100, "A", "T"), Some(("Yes".to_string(), "3.5".to_string())));
}

#[test]
fn later_results_replace_earlier_ones() {
    let v = || Variant::new("chr1".to_string(), 100, "A".to_string(), "T".to_string());
    let table = table_from_results(&vec![
        (v(), "Detectable".to_string(), "3".to_string()),
        (v(), "Non-detectable".to_string(), "0".to_string()),
    ]);
    assert_eq!(table.get("chr1", 100, "A", "T"), Some(("No".to_string(), "0".to_string())));
    assert_eq!(status_for_condition("Detectable"), "Yes");
    assert_eq!(status_for_condition("detectable"), "No");
}

#[test]
fn test_merge_detectability_into_vcf() {
    let text = format!("{}\nchr1\t100\tA\tT\t3.5\tDetectable\t30\t15\n", SCORE_HEADER);
    let table = table_from_text(&text).unwrap();
    let output_content = merge_lines(&catalog(), &table).join("\n");
    assert!(output_content.contains("DET=Yes"));
    assert!(output_content.contains("DETS=3.5"));
    assert!(output_content.contains("##INFO=<ID=DET,Number=1,Type=String"));
    assert!(output_content.contains("##INFO=<ID=DETS,Number=1,Type=Float"));
}

#[test]
fn test_merge_vcf_integration() {
    let text = format!("{}\nchr1\t100\tA\tT\t3.5\tDetectable\t30\t15\n", SCORE_HEADER);
    let table = table_from_text(&text);
    assert!(table.is_ok());
    let output_content = merge_lines(&catalog(), &table.unwrap()).join("\n");
    assert!(output_content.contains("DET=Yes"));
    assert!(output_content.contains("DETS=3.5"));
    assert!(output_content.contains("##INFO=<ID=DET,Number=1,Type=String"));
    assert!(output_content.contains("##INFO=<ID=DETS,Number=1,Type=Float"));
}

#[test]
fn merged_row_and_single_declaration_pair() {
    let text = format!("{}\nchr1\t100\tA\tT\t3.5\tDetectable\t30\t15\n", SCORE_HEADER);
    let table = table_from_text(&text).unwrap();
    let mut input = catalog();
    input.insert(2, "##INFO=<ID=AF,Number=A,Type=Float,Description=\"Allele Frequency\">".to_string());
    let out = merge_lines(&input, &table);
    assert_eq!(out.last().unwrap(), "chr1\t100\t.\tA\tT\t.\tPASS\tDP=30;DET=Yes;DETS=3.5");
    let attrs = out.last().unwrap().split('\t').nth(7).unwrap().to_string();
    assert_eq!(attrs, "DP=30;DET=Yes;DETS=3.5");
    assert_eq!(out.iter().filter(|l| l.starts_with("##INFO=<ID=DET,")).count(), 1);
    assert_eq!(out.iter().filter(|l| l.starts_with("##INFO=<ID=DETS,")).count(), 1);
    assert!(out[2].starts_with("##INFO=<ID=DET,"));
    assert_eq!(out.len(), input.len() + 2);
}

#[test]
fn merge_with_no_results_keeps_lines() {
    let input = lines(&[
        "##fileformat=VCFv4.2",
        "##INFO=<ID=DP,Number=1,Type=Integer,Description=\"Total Depth\">",
        "#CHROM\tPOS\tID\tREF\tALT\tQUAL\tFILTER\tINFO",
        "chr1\t100\t.\tA\tT\t.\tPASS\tDP=30",
        "chr2\t7",
        "chr3\tbad\t.\tG\tC\t.\tPASS\t.",
    ]);
    let out = merge_lines(&input, &DetectabilityTable::new());
    assert_eq!(out.len(), input.len() + 2);
    assert_eq!(out[0..2], input[0..2]);
    assert_eq!(out[4..], input[2..]);
}

#[test]
fn merge_uses_the_header_info_column_and_fixed_key_columns() {
    let table = table_from_results(&vec![(
        Variant::new("chr1".into(), 5, "A".into(), "C".into()),
        "Non-detectable".to_string(),
        "0".to_string(),
    )]);
    let mut state = MergeState::new();
    assert_eq!(state.merge_line("#CHROM\tPOS\tID\tREF\tALT\tQUAL\tINFO\tFILTER", &table).len(), 1);
    let out = state.merge_line("chr1\t5\t.\tA\tC\t.\tDP=1\tPASS", &table);
    assert_eq!(out, vec!["chr1\t5\t.\tA\tC\t.\tDP=1;DET=No;DETS=0\tPASS".to_string()]);
    let out = state.merge_line("chr1\t5\t.\tA\tG\t.\tDP=1\tPASS", &table);
    assert_eq!(out, vec!["chr1\t5\t.\tA\tG\t.\tDP=1\tPASS".to_string()]);
}

#[test]
fn test_combined_workflow_integration() {
    let input = lines(&[
        "##fileformat=VCFv4.2",
        "##INFO=<ID=DP,Number=1,Type=Integer,Description=\"Total Depth\">",
        "#CHROM\tPOS\tID\tREF\tALT\tQUAL\tFILTER\tINFO",
        "chr1\t100\t.\tA\tT\t.\tPASS\tDP=30",
        "chr2\t200\t.\tG\tC\t.\tPASS\tDP=40",
    ]);
    let variants = vlod_rs::vcf::variants_from_lines(&input);
    assert_eq!(variants.len(), 2);

    let results = vec![
        (
            Variant::new("chr1".to_string(), 100, "A".to_string(), "T".to_string()),
            "Detectable".to_string(),
            3.5f64.to_string(),
        ),
        (
            Variant::new("chr2".to_string(), 200, "G".to_string(), "C".to_string()),
            "Non-detectable".to_string(),
            1.2f64.to_string(),
        ),
    ];
    let output_content = merge_lines(&input, &table_from_results(&results)).join("\n");
    assert!(output_content.contains("DET=Yes"));
    assert!(output_content.contains("DETS=3.5"));
    assert!(output_content.contains("DET=No"));
    assert!(output_content.contains("DETS=1.2"));
    assert!(output_content.contains("##INFO=<ID=DET,Number=1,Type=String"));
    assert!(output_content.contains("##INFO=<ID=DETS,Number=1,Type=Float"));
}

#[test]
fn score_table_lines() {
    assert_eq!(score_table_header(), SCORE_HEADER);
    let v = Variant::new("chr1".to_string(), 100, "A".to_string(), "T".to_string());
    assert_eq!(
        score_table_row(&v, "3.5", "Detectable", 30, 15),
        "chr1\t100\tA\tT\t3.5\tDetectable\t30\t15"
    );
}
