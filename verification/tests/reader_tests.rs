use interpro_filter::expr::Expr;
use interpro_filter::reader::{parse_line, InterproGffReader, ReadErrorKind};
use interpro_filter::records::{DomainRecord, GeneRecord};
use interpro_filter::utils::validate_source_expr;

fn lines(ls: &[&str]) -> Vec<String> {
    ls.iter().map(|l| l.to_string()).collect()
}

#[test]
fn parse_line_reads_nine_fields() {
    let (id, d) = parse_line("gene1\tPfam\t.\t12\t15\t.\t.\t.\tName=X;signature_desc=Y").unwrap();
    assert_eq!(id, "gene1");
    assert_eq!(d.source, "Pfam");
    assert_eq!(d.start, 12);
    assert_eq!(d.end, 15);
    assert_eq!(d.domain_name, "X");
    assert_eq!(d.domain_desc, "Y");
}

#[test]
fn parse_line_defaults_name_and_description() {
    let (_, d) = parse_line("gene1\tPfam\t.\t12\t15\t.\t.\t.\t.").unwrap();
    assert_eq!(d.domain_name, "No Name");
    assert_eq!(d.domain_desc, "No Description");
}

#[test]
fn parse_line_rejects_wrong_field_count() {
    let err = parse_line("gene1\tPfam\t12\t15").unwrap_err();
    assert_eq!(err.kind, ReadErrorKind::InvalidLine);
}

#[test]
fn parse_line_rejects_bad_numbers() {
    let err = parse_line("gene1\tPfam\t.\ttwelve\t15\t.\t.\t.\t.").unwrap_err();
    assert_eq!(err.kind, ReadErrorKind::InvalidNumber);
}

#[test]
fn is_gene_recognizes_parent_marker() {
    let (_, d) = parse_line("gene1\t.\t.\t10\t20\t.\t.\t.\t.").unwrap();
    assert!(d.is_gene());
    let (_, d) = parse_line("gene1\tPfam\t.\t10\t20\t.\t.\t.\t.").unwrap();
    assert!(!d.is_gene());
}

#[test]
fn aggregation_groups_children_under_parent() {
    let reader = InterproGffReader::new(lines(&[
        "gene1\t.\t.\t10\t20\t.\t.\t.\t.",
        "gene1\tPfam\t.\t12\t15\t.\t.\t.\tName=X;signature_desc=Y",
    ]));
    let records = reader.finish().unwrap();
    assert_eq!(records.len(), 1);
    let rec = &records[0];
    assert_eq!(rec.id, "gene1");
    assert_eq!(rec.length, 11);
    assert_eq!(rec.domains.len(), 1);
    let d = &rec.domains[0];
    assert_eq!(d.domain_name, "X");
    assert_eq!(d.domain_desc, "Y");
    assert_eq!(d.start, 12);
    assert_eq!(d.end, 15);
}

#[test]
fn orphan_child_line_is_dropped() {
    let reader = InterproGffReader::new(lines(&[
        "gene1\tPfam\t.\t12\t15\t.\t.\t.\tName=X",
    ]));
    let records = reader.finish().unwrap();
    assert!(records.is_empty());
}

#[test]
fn child_before_its_parent_is_dropped() {
    let reader = InterproGffReader::new(lines(&[
        "gene1\tPfam\t.\t12\t15\t.\t.\t.\tName=X",
        "gene1\t.\t.\t10\t20\t.\t.\t.\t.",
    ]));
    let records = reader.finish().unwrap();
    assert_eq!(records.len(), 1);
    assert!(records[0].domains.is_empty());
}

#[test]
fn min_length_excludes_parent_at_creation() {
    let reader = InterproGffReader::new(lines(&[
        "gene1\t.\t.\t10\t20\t.\t.\t.\t.",
        "gene1\tPfam\t.\t12\t15\t.\t.\t.\tName=X;signature_desc=Y",
    ]))
    .with_min_length(Some(20));
    let records = reader.finish().unwrap();
    assert!(records.is_empty());
}

#[test]
fn max_length_excludes_parent_at_creation() {
    let reader = InterproGffReader::new(lines(&["gene1\t.\t.\t10\t20\t.\t.\t.\t."]))
        .with_max_length(Some(10));
    let records = reader.finish().unwrap();
    assert!(records.is_empty());
}

#[test]
fn first_parent_line_wins_on_duplicates() {
    let reader = InterproGffReader::new(lines(&[
        "gene1\t.\t.\t10\t20\t.\t.\t.\t.",
        "gene1\t.\t.\t10\t40\t.\t.\t.\t.",
    ]));
    let records = reader.finish().unwrap();
    assert_eq!(records.len(), 1);
    assert_eq!(records[0].length, 11);
}

#[test]
fn comment_and_short_lines_are_skipped() {
    let reader = InterproGffReader::new(lines(&[
        "# a comment line",
        "x",
        "gene1\t.\t.\t10\t20\t.\t.\t.\t.",
    ]));
    let records = reader.finish().unwrap();
    assert_eq!(records.len(), 1);
}

#[test]
fn finish_line_stops_the_pass() {
    let reader = InterproGffReader::new(lines(&[
        "gene1\t.\t.\t10\t20\t.\t.\t.\t.",
        "## FASTA ##",
        "gene2\t.\t.\t10\t20\t.\t.\t.\t.",
    ]));
    let records = reader.finish().unwrap();
    assert_eq!(records.len(), 1);
    assert_eq!(records[0].id, "gene1");
}

#[test]
fn custom_comment_character_is_honoured() {
    let reader = InterproGffReader::new(lines(&[
        "; a comment line",
        "gene1\t.\t.\t10\t20\t.\t.\t.\t.",
    ]))
    .with_comment(';');
    let records = reader.finish().unwrap();
    assert_eq!(records.len(), 1);
}

#[test]
fn id_filter_skips_other_identifiers() {
    let reader = InterproGffReader::new(lines(&[
        "gene1\t.\t.\t10\t20\t.\t.\t.\t.",
        "gene2\t.\t.\t10\t20\t.\t.\t.\t.",
    ]))
    .with_id_expr(Some(Expr::from_string("gene2").unwrap()));
    let records = reader.finish().unwrap();
    assert_eq!(records.len(), 1);
    assert_eq!(records[0].id, "gene2");
}

#[test]
fn domain_filter_keeps_and_drops_parents() {
    let reader = InterproGffReader::new(lines(&[
        "gene1\t.\t.\t10\t20\t.\t.\t.\t.",
        "gene1\tPfam\t.\t12\t15\t.\t.\t.\tName=Pfam",
        "gene2\t.\t.\t10\t20\t.\t.\t.\t.",
        "gene2\tCDD\t.\t12\t15\t.\t.\t.\tName=Other",
    ]))
    .with_domain_expr(Some(Expr::from_string("Pfam").unwrap()));
    let records = reader.finish().unwrap();
    assert_eq!(records.len(), 1);
    assert_eq!(records[0].id, "gene1");
}

#[test]
fn source_filter_prunes_children_but_keeps_parent() {
    let reader = InterproGffReader::new(lines(&[
        "gene1\t.\t.\t10\t20\t.\t.\t.\t.",
        "gene1\tPfam\t.\t12\t15\t.\t.\t.\tName=X",
        "gene1\tCDD\t.\t16\t18\t.\t.\t.\tName=Y",
    ]))
    .with_source_expr(Some(Expr::from_string("Pfam").unwrap()));
    let records = reader.finish().unwrap();
    assert_eq!(records.len(), 1);
    assert_eq!(records[0].domains.len(), 1);
    assert_eq!(records[0].domains[0].source, "Pfam");
}

#[test]
fn inverted_parent_span_is_fatal() {
    let reader = InterproGffReader::new(lines(&["gene1\t.\t.\t20\t10\t.\t.\t.\t."]));
    let err = reader.finish().unwrap_err();
    assert_eq!(err.kind, ReadErrorKind::InvalidSpan);
}

#[test]
fn malformed_line_aborts_the_pass() {
    let reader = InterproGffReader::new(lines(&[
        "gene1\t.\t.\t10\t20\t.\t.\t.\t.",
        "not a record line",
    ]));
    let err = reader.finish().unwrap_err();
    assert_eq!(err.kind, ReadErrorKind::InvalidLine);
}

#[test]
fn filter_by_source_expr_prunes_copy() {
    let mut rec = GeneRecord::new("gene1".to_string(), 10, 20);
    rec.push_domain(DomainRecord::new(
        "Pfam".to_string(),
        12,
        15,
        "X".to_string(),
        "Y".to_string(),
    ));
    rec.push_domain(DomainRecord::new(
        "CDD".to_string(),
        16,
        18,
        "Z".to_string(),
        "W".to_string(),
    ));
    let expr = Some(Expr::from_string("Pfam").unwrap());
    let pruned = rec.filter_by_source_expr(&expr);
    assert_eq!(pruned.domains.len(), 1);
    assert_eq!(pruned.domains[0].source, "Pfam");

    let mut rec2 = GeneRecord::new("gene2".to_string(), 10, 20);
    rec2.push_domain(DomainRecord::new(
        "CDD".to_string(),
        16,
        18,
        "Z".to_string(),
        "W".to_string(),
    ));
    let untouched = rec2.filter_by_source_expr(&None);
    assert_eq!(untouched.domains.len(), 1);
}

#[test]
fn matches_domains_uses_annotation_names() {
    let mut rec = GeneRecord::new("gene1".to_string(), 10, 20);
    rec.push_domain(DomainRecord::new(
        "Pfam".to_string(),
        12,
        15,
        "Kinase".to_string(),
        "Y".to_string(),
    ));
    let expr = Expr::from_string("Kinase").unwrap();
    assert!(expr.matches_domains(&rec).unwrap());
    let expr = Expr::from_string("Pfam").unwrap();
    assert!(!expr.matches_domains(&rec).unwrap());
}

#[test]
fn tsv_line_has_expected_shape() {
    let mut rec = GeneRecord::new("gene1".to_string(), 10, 20);
    rec.push_domain(DomainRecord::new(
        "Pfam".to_string(),
        12,
        15,
        "X".to_string(),
        "Y".to_string(),
    ));
    assert_eq!(
        rec.to_tsv_line(),
        "gene1\t.\t.\t.\t0\t11\ngene1\tPfam\tX\tY\t12\t15"
    );
    assert_eq!(rec.to_tsv_record(), rec.to_tsv_line());
}

#[test]
fn table_rows_have_expected_cells() {
    let mut rec = GeneRecord::new("gene1".to_string(), 10, 20);
    rec.push_domain(DomainRecord::new(
        "Pfam".to_string(),
        12,
        15,
        "X".to_string(),
        "Y".to_string(),
    ));
    let rows = rec.to_table_row();
    assert_eq!(
        rows,
        vec![
            vec!["gene1", ".", ".", ".", "0", "11"],
            vec!["gene1", "Pfam", "X", "Y", "12", "15"],
        ]
        .into_iter()
        .map(|row: Vec<&str>| row.into_iter().map(|c| c.to_string()).collect::<Vec<String>>())
        .collect::<Vec<Vec<String>>>()
    );
}

#[test]
fn display_strings_have_expected_shape() {
    let mut rec = GeneRecord::new("gene1".to_string(), 10, 20);
    assert_eq!(rec.to_display_string(), "--- id: gene1, length 11 ---\n");
    rec.push_domain(DomainRecord::new(
        "Pfam".to_string(),
        12,
        15,
        "X".to_string(),
        "Y".to_string(),
    ));
    assert_eq!(rec.domains[0].to_display_string(), "12-15 X Y");
    assert_eq!(
        rec.to_display_string(),
        "--- id: gene1, length 11 ---\n12-15 X Y"
    );
}

#[test]
fn validate_source_expr_accepts_known_sources() {
    assert!(validate_source_expr(&None).is_ok());
    let expr = Some(Expr::from_string("Pfam | CDD").unwrap());
    assert!(validate_source_expr(&expr).is_ok());
}

#[test]
fn validate_source_expr_rejects_unknown_sources() {
    let expr = Some(Expr::from_string("NotASource").unwrap());
    assert!(validate_source_expr(&expr).is_err());
}

#[test]
fn later_attributes_override_earlier_ones() {
    let (_, d) = parse_line("gene1\tPfam\t.\t12\t15\t.\t.\t.\tName=A;Name=B;junk;k=v=w").unwrap();
    assert_eq!(d.domain_name, "B");
    assert_eq!(d.domain_desc, "No Description");
}
