use vlod_rs::lod::{chunkify, concat_chunks};
use vlod_rs::utils::{chunk_work, format_file_size, get_extension, has_extension};

#[test]
fn test_has_extension() {
    assert!(has_extension("test.vcf", "vcf"));
    assert!(has_extension("test.VCF", "vcf"));
    assert!(!has_extension("test.txt", "vcf"));
    assert!(!has_extension("test", "vcf"));
}

#[test]
fn test_get_extension() {
    assert_eq!(get_extension("test.vcf"), Some("vcf".to_string()));
    assert_eq!(get_extension("test.VCF"), Some("vcf".to_string()));
    assert_eq!(get_extension("test"), None);
}

#[test]
fn extension_of_paths_with_directories_and_dots() {
    assert_eq!(get_extension("dir.d/sample.vcf.GZ"), Some("gz".to_string()));
    assert_eq!(get_extension("dir/.bashrc"), None);
    assert_eq!(get_extension("dir/file.vcf/"), Some("vcf".to_string()));
    assert_eq!(get_extension("dir/file.vcf/."), Some("vcf".to_string()));
    assert_eq!(get_extension("dir/.."), None);
    assert_eq!(get_extension("archive."), Some("".to_string()));
    assert!(has_extension("/data/x.BaM", "bam"));
    assert!(!has_extension("/data/x.bam", "bai"));
}

#[test]
fn test_format_file_size() {
    assert_eq!(format_file_size(512), "512.00 B");
    assert_eq!(format_file_size(1024), "1.00 KB");
    assert_eq!(format_file_size(1536), "1.50 KB");
    assert_eq!(format_file_size(1024 * 1024), "1.00 MB");
}

#[test]
fn format_file_size_units_and_rounding() {
    assert_eq!(format_file_size(0), "0.00 B");
    assert_eq!(format_file_size(1023), "1023.00 B");
    assert_eq!(format_file_size(1152), "1.12 KB");
    assert_eq!(format_file_size(1165), "1.14 KB");
    assert_eq!(format_file_size(1024u64.pow(3) * 3), "3.00 GB");
    assert_eq!(format_file_size(1024u64.pow(4) * 2048), "2048.00 TB");
}

#[test]
fn test_chunk_work() {
    let items = vec![1, 2, 3, 4, 5, 6, 7, 8, 9, 10];
    let chunks = chunk_work(items, 3);

    assert!(chunks.len() <= 3);
    assert!(!chunks.is_empty());

    let total_items: usize = chunks.iter().map(|c| c.len()).sum();
    assert_eq!(total_items, 10);
}

#[test]
fn test_chunk_work_empty() {
    let items: Vec<i32> = vec![];
    let chunks = chunk_work(items, 3);

    assert_eq!(chunks.len(), 1);
    assert!(chunks[0].is_empty());
}

#[test]
fn chunk_work_keeps_order_and_last_chunks_take_remainder() {
    let chunks = chunk_work((1..=11).collect::<Vec<i32>>(), 4);
    assert_eq!(chunks, vec![vec![1, 2], vec![3, 4, 5], vec![6, 7, 8], vec![9, 10, 11]]);

    let chunks = chunk_work((1..=11).collect::<Vec<i32>>(), 3);
    assert_eq!(chunks, vec![vec![1, 2, 3], vec![4, 5, 6, 7], vec![8, 9, 10, 11]]);

    let chunks = chunk_work((1..=10).collect::<Vec<i32>>(), 3);
    assert_eq!(chunks, vec![vec![1, 2, 3], vec![4, 5, 6], vec![7, 8, 9, 10]]);
}

#[test]
fn chunk_work_with_more_chunks_than_items_or_none() {
    let chunks = chunk_work(vec!['a', 'b'], 5);
    assert_eq!(chunks, vec![vec!['a'], vec!['b']]);

    let chunks = chunk_work(vec![7, 8, 9], 0);
    assert_eq!(chunks, vec![vec![7, 8, 9]]);
}

#[test]
fn chunk_sizes_differ_by_at_most_one() {
    for (n, k) in [(10usize, 3usize), (9, 3), (7, 7), (13, 4), (100, 9), (11, 4), (11, 3), (19, 5), (100, 7)] {
        let chunks = chunk_work((0..n).collect::<Vec<usize>>(), k);
        assert_eq!(chunks.len(), k);
        let total: usize = chunks.iter().map(|c| c.len()).sum();
        assert_eq!(total, n);
        let max = chunks.iter().map(|c| c.len()).max().unwrap();
        let min = chunks.iter().map(|c| c.len()).min().unwrap();
        assert!(max - min <= 1);
    }
}

#[test]
fn test_chunkify() {
    let items = vec![1, 2, 3, 4, 5, 6, 7, 8, 9, 10];
    let chunks = chunkify(items, 3);

    assert_eq!(chunks.len(), 3);
    assert!(!chunks[0].is_empty());
    assert!(!chunks[1].is_empty());
    assert!(!chunks[2].is_empty());

    let total_items: usize = chunks.iter().map(|c| c.len()).sum();
    assert_eq!(total_items, 10);
}

#[test]
fn test_chunkify_empty() {
    let items: Vec<i32> = vec![];
    let chunks = chunkify(items, 3);

    assert_eq!(chunks.len(), 1);
    assert!(chunks[0].is_empty());
}

#[test]
fn chunks_concatenate_back_in_order() {
    for (n, k) in [(0usize, 3usize), (5, 0), (10, 3), (11, 4), (3, 8)] {
        let items: Vec<usize> = (0..n).collect();
        assert_eq!(concat_chunks(chunkify(items.clone(), k)), items);
    }
    assert_eq!(concat_chunks(vec![vec!["b"], vec![], vec!["a", "c"]]), vec!["b", "a", "c"]);
}
