use dispersion_equalizer::greedy::{clamp_max_sections, unroll_section_counts, MAX_RUNTIME_SECTIONS};

#[test]
fn unroll_repeats_candidates_in_order() {
    assert_eq!(unroll_section_counts(&vec![2, 0, 1, 3]), vec![0, 0, 2, 3, 3, 3]);
    assert!(unroll_section_counts(&vec![]).is_empty());
    assert!(unroll_section_counts(&vec![0, 0]).is_empty());
}

#[test]
fn unroll_is_cut_at_chain_capacity() {
    let out = unroll_section_counts(&vec![1000, 30, 5]);
    assert_eq!(out.len(), MAX_RUNTIME_SECTIONS);
    assert_eq!(out[999], 0);
    assert_eq!(out[1000], 1);
    assert_eq!(out[1023], 1);
    let exact = unroll_section_counts(&vec![1024, 7]);
    assert_eq!(exact.len(), 1024);
    assert!(exact.iter().all(|&i| i == 0));
}


#[test]
fn max_sections_clamp() {
    assert_eq!(clamp_max_sections(1024), 1024);
    assert_eq!(clamp_max_sections(0), 8);
    assert_eq!(clamp_max_sections(-5), 8);
    assert_eq!(clamp_max_sections(64), 64);
    assert_eq!(clamp_max_sections(4096), 4096);
    assert_eq!(clamp_max_sections(5000), 4096);
    assert_eq!(clamp_max_sections(i32::MAX), 4096);
}

use dispersion_equalizer::greedy::{add_candidate_center, CenterEntry};

#[test]
fn candidate_centres_are_filed_by_key() {
    let mut centers: Vec<CenterEntry<f32, f32>> = Vec::new();
    add_candidate_center(&mut centers, 100_000, 1000.0, None);
    add_candidate_center(&mut centers, 2_000, 20.0, None);
    add_candidate_center(&mut centers, 50_000, 500.0, Some(1.4));
    add_candidate_center(&mut centers, 100_000, 1000.004, Some(2.0));
    add_candidate_center(&mut centers, 50_000, 500.001, None);
    let keys: Vec<u64> = centers.iter().map(|c| c.key).collect();
    assert_eq!(keys, vec![2_000, 50_000, 100_000]);
    // a known key keeps its first frequency
    assert_eq!(centers[2].freq, 1000.0);
    // and takes the latest preferred quality, never dropping one for None
    assert_eq!(centers[2].preferred_q, Some(2.0));
    assert_eq!(centers[1].preferred_q, Some(1.4));
    assert_eq!(centers[0].preferred_q, None);
}

use dispersion_equalizer::greedy::SectionCounts;

#[test]
fn section_budget_bounds_sections() {
    // a budget of sixteen picks yields at most sixteen sections
    let mut counts = SectionCounts::new(3, 16);
    let mut picks = 0;
    while counts.has_budget() {
        counts.record_pick(picks % 3);
        picks += 1;
    }
    assert_eq!(picks, 16);
    let sections = counts.sections();
    assert_eq!(sections.len(), 16);
    assert!(sections.len() <= 16);
}

#[test]
fn section_counts_unroll_in_candidate_order() {
    let mut counts = SectionCounts::new(4, 8);
    counts.record_pick(3);
    counts.record_pick(0);
    counts.record_pick(3);
    assert!(counts.has_budget());
    assert_eq!(counts.sections(), vec![0, 3, 3]);
    let empty = SectionCounts::new(5, 0);
    assert!(!empty.has_budget());
    assert!(empty.sections().is_empty());
}

#[test]
fn large_budget_is_cut_at_chain_capacity() {
    let mut counts = SectionCounts::new(1, 4096);
    while counts.has_budget() {
        counts.record_pick(0);
    }
    assert_eq!(counts.sections().len(), MAX_RUNTIME_SECTIONS);
}
