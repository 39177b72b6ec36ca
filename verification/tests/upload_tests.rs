use masto_to_tw::upload::{upload_plan, UploadStep, SEGMENT_BYTES};

fn appends(steps: &[UploadStep]) -> Vec<(u64, u64)> {
    steps
        .iter()
        .filter_map(|s| match s {
            UploadStep::Append { segment_index, size } => Some((*segment_index, *size)),
            _ => None,
        })
        .collect()
}

fn has_finalize(steps: &[UploadStep]) -> bool {
    steps.iter().any(|s| matches!(s, UploadStep::Finalize))
}

fn alt_texts(steps: &[UploadStep]) -> Vec<String> {
    steps
        .iter()
        .filter_map(|s| match s {
            UploadStep::SetAltText { text } => Some(text.clone()),
            _ => None,
        })
        .collect()
}

#[test]
fn empty_upload_only_finalizes() {
    let steps = upload_plan(0, &None);
    assert_eq!(appends(&steps), vec![]);
    assert!(has_finalize(&steps));
    assert_eq!(alt_texts(&steps), Vec::<String>::new());
    assert_eq!(steps.len(), 1);
}

#[test]
fn one_byte_is_one_segment() {
    let steps = upload_plan(1, &None);
    assert_eq!(appends(&steps), vec![(0, 1)]);
    assert!(has_finalize(&steps));
}

#[test]
fn exact_segment_boundary_is_one_segment() {
    let steps = upload_plan(SEGMENT_BYTES, &None);
    assert_eq!(appends(&steps), vec![(0, SEGMENT_BYTES)]);
}

#[test]
fn one_byte_over_boundary_adds_short_segment() {
    let steps = upload_plan(SEGMENT_BYTES + 1, &None);
    assert_eq!(appends(&steps), vec![(0, SEGMENT_BYTES), (1, 1)]);
}

#[test]
fn segments_are_contiguous_and_cover_the_total() {
    let total: u64 = 2_500_000;
    let steps = upload_plan(total, &None);
    let parts = appends(&steps);
    assert_eq!(parts, vec![(0, SEGMENT_BYTES), (1, SEGMENT_BYTES), (2, 500_000)]);
    let sum: u64 = parts.iter().map(|(_, size)| size).sum();
    assert_eq!(sum, total);
}

#[test]
fn alt_text_step_follows_finalize() {
    let steps = upload_plan(10, &Some("a description".to_string()));
    assert_eq!(alt_texts(&steps), vec!["a description".to_string()]);
    assert!(matches!(steps[steps.len() - 2], UploadStep::Finalize));
    assert!(matches!(steps[steps.len() - 1], UploadStep::SetAltText { .. }));
}

#[test]
fn empty_alt_text_attaches_no_metadata() {
    let steps = upload_plan(10, &Some(String::new()));
    assert_eq!(alt_texts(&steps), Vec::<String>::new());
    assert!(matches!(steps[steps.len() - 1], UploadStep::Finalize));
}

#[test]
fn absent_alt_text_attaches_no_metadata() {
    let steps = upload_plan(10, &None);
    assert_eq!(alt_texts(&steps), Vec::<String>::new());
}
