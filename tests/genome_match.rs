use genome_match::cache::{build_index, build_sequence, index_from_blob, sequence_from_blob, CacheError};
use genome_match::comparison::GenomeComparison;
use genome_match::encoding::{encode_base, encode_genome, is_encoded};
use genome_match::index::GenomeIndex;
use genome_match::matcher::{find_matches, hamming_distance};
use genome_match::simulation::{Simulation, SimulationConfig, SimulationState};

fn codes(text: &str) -> Vec<u8> {
    encode_genome(text.as_bytes())
}

#[test]
fn encodes_header_carriage_return_and_case() {
    let out = encode_genome(b">h\nACGTN\r\nacgtn\n");
    assert_eq!(out, vec![0, 1, 2, 3, 4, 0, 1, 2, 3, 4]);
}

#[test]
fn encoding_drops_unrecognised_bytes() {
    assert_eq!(encode_genome(b"AXC G-t\tn"), vec![0, 1, 2, 3, 4]);
    assert_eq!(encode_genome(b""), Vec::<u8>::new());
    assert_eq!(encode_genome(b">only a header"), Vec::<u8>::new());
    assert_eq!(encode_genome(b">a\nAC\n>b\r\nGT"), vec![0, 1, 2, 3]);
}

#[test]
fn base_codes() {
    assert_eq!(encode_base(b'A'), 0);
    assert_eq!(encode_base(b'c'), 1);
    assert_eq!(encode_base(b'G'), 2);
    assert_eq!(encode_base(b't'), 3);
    assert_eq!(encode_base(b'N'), 4);
    assert_eq!(encode_base(b'U'), 5);
    assert!(is_encoded(&[0, 1, 2, 3, 4]));
    assert!(!is_encoded(&[0, 5]));
}

#[test]
fn index_buckets_of_repeated_target() {
    let target = codes("ACGTACGTACGT");
    let index = GenomeIndex::new(&target, 2, 4);
    assert_eq!(index.part_size, 2);
    assert_eq!(index.index.len(), 25);
    assert_eq!(index.get(&codes("AC")), Some(&vec![0, 4, 8]));
    // Only offsets 0..=8 start a whole chunk of four.
    assert_eq!(index.get(&codes("CG")), Some(&vec![1, 5]));
    assert_eq!(index.get(&codes("GT")), Some(&vec![2, 6]));
    assert_eq!(index.get(&codes("TA")), Some(&vec![3, 7]));
    assert_eq!(index.get(&codes("TT")), None);
}

#[test]
fn index_lookup_lists_every_offset_in_range() {
    let target = codes("AAAAAN");
    let index = GenomeIndex::new(&target, 1, 3);
    assert_eq!(index.get(&codes("A")), Some(&vec![0, 1, 2, 3]));
    assert_eq!(index.get(&codes("N")), None);
    let whole = GenomeIndex::new(&target, 2, 2);
    assert_eq!(whole.get(&codes("AN")), Some(&vec![4]));
    assert_eq!(whole.get(&codes("AA")), Some(&vec![0, 1, 2, 3]));
}

#[test]
fn hamming_counts_mismatches() {
    assert_eq!(hamming_distance(&codes("ACGT"), &codes("ACGA")), 1);
    assert_eq!(hamming_distance(&codes("ACGT"), &codes("TGCA")), 4);
    assert_eq!(hamming_distance(&[], &[]), 0);
}

#[test]
fn end_to_end_match_and_miss() {
    let cmp = GenomeComparison::build(codes("ACGA"), codes("ACGTACGTACGT"), 4, 1);
    assert!(cmp.compare(0));
    let miss = GenomeComparison::build(codes("TTTT"), codes("ACGTACGTACGT"), 4, 1);
    assert!(!miss.compare(0));
}

#[test]
fn pigeonhole_finds_window_with_full_budget() {
    // Two substitutions in a twelve-base window, seeds of four bases; only the
    // last seed is intact.
    let target = codes("GGGGACGTTGCAACCTGGGGGGGG");
    let query = codes("ACGATGCTACCT");
    let cmp = GenomeComparison::build(query, target, 12, 2);
    assert!(cmp.compare(0));
    let far = codes("ACGATGCTACCA");
    let cmp2 = GenomeComparison::build(far, codes("GGGGACGTTGCAACCTGGGGGGGG"), 12, 2);
    assert!(!cmp2.compare(0));
}

#[test]
fn intact_seed_past_indexed_range_is_not_found() {
    // The intact seed starts at 12, beyond the last indexed offset 8.
    let cmp = GenomeComparison::build(codes("ACGATGCTACCT"), codes("GGGGACGTTGCAACCTGGGG"), 12, 2);
    assert!(!cmp.compare(0));
}

#[test]
fn candidate_before_target_start_is_tried_at_zero() {
    // Seed 1 ("GT") occurs at offset 1; its chunk would start at -1 and is
    // tried at 0 instead, where "ACGT" is two substitutions from "TTGT".
    let target = codes("AGTCC");
    let index = GenomeIndex::new(&target, 2, 4);
    assert!(!find_matches(&codes("TTGT"), &index, &target, 4, 1));
}

#[test]
fn last_window_of_query_is_compared() {
    let cmp = GenomeComparison::build(codes("TTTTACGA"), codes("ACGTACGTACGT"), 4, 1);
    let last = cmp.get_query_genome_len() - 4;
    assert_eq!(last, 4);
    assert!(cmp.compare(last));
    assert!(!cmp.compare(0));
}

#[test]
fn sequence_blob_round_trip() {
    let (seq, blob) = build_sequence(b">x\nACGTN").unwrap();
    assert_eq!(seq, vec![0, 1, 2, 3, 4]);
    assert_eq!(blob, vec![5, 0, 0, 0, 0, 0, 0, 0, 0, 1, 2, 3, 4]);
    assert_eq!(sequence_from_blob(&blob), Ok(seq));
}

#[test]
fn sequence_blob_errors() {
    assert_eq!(sequence_from_blob(&[3, 0, 0]), Err(CacheError::Decode));
    assert_eq!(sequence_from_blob(&[1, 0, 0, 0, 0, 0, 0, 0, 9]), Err(CacheError::NotEncoded));
}

#[test]
fn index_blob_round_trip() {
    let target = codes("ACGTACGTACGT");
    let (index, blob) = build_index(&target, 1, 4).unwrap();
    let loaded = index_from_blob(&blob).unwrap();
    assert_eq!(loaded.part_size, 1);
    assert_eq!(loaded.index, index.index);
    assert_eq!(loaded.index[0], vec![0, 4, 8]);
    // 8 + 5 buckets of 8 bytes + 9 offsets of 4 bytes + 4
    assert_eq!(blob.len(), 8 + 5 * 8 + 9 * 4 + 4);
    assert_eq!(&blob[0..8], &[5, 0, 0, 0, 0, 0, 0, 0]);
    assert_eq!(&blob[blob.len() - 4..], &[1, 0, 0, 0]);
}

#[test]
fn index_blob_errors() {
    let target = codes("ACGTACGTACGT");
    let (_, mut blob) = build_index(&target, 1, 4).unwrap();
    let n = blob.len();
    blob[n - 4] = 2;
    assert_eq!(index_from_blob(&blob).err(), Some(CacheError::WrongBucketCount));
    assert_eq!(index_from_blob(&[1, 2]).err(), Some(CacheError::Decode));
}

fn config() -> SimulationConfig {
    SimulationConfig {
        chunk_size: 4,
        max_differences: 1,
        num_processes: 1,
        update_interval: 10,
        human_genome_path: "human.fa".to_string(),
        genome1_path: "one.fa".to_string(),
        genome2_path: "two.fa".to_string(),
        genome3_path: String::new(),
        genome1_name: "One".to_string(),
        genome2_name: "Two".to_string(),
        genome3_name: "Three".to_string(),
    }
}

#[test]
fn state_starts_at_zero_and_records_categories() {
    let mut s = SimulationState::default();
    assert_eq!(s.total_comparisons, 0);
    s.record(true, true, true);
    s.record(true, true, false);
    s.record(true, false, true);
    s.record(false, true, true);
    s.record(true, false, false);
    s.record(false, true, false);
    s.record(false, false, true);
    s.record(false, false, false);
    s.record(false, false, false);
    assert_eq!(s.human_genome1_genome2_genome3, 1);
    assert_eq!(s.human_genome1_genome2, 1);
    assert_eq!(s.human_genome1_genome3, 1);
    assert_eq!(s.human_genome2_genome3, 1);
    assert_eq!(s.human_genome1, 1);
    assert_eq!(s.human_genome2, 1);
    assert_eq!(s.human_genome3, 1);
    assert_eq!(s.human_only, 2);
    assert_eq!(s.total_comparisons, 9);
}

#[test]
fn simulation_counts_samples() {
    let query = codes("ACGTTTTT");
    let g1 = GenomeComparison::build(query.clone(), codes("ACGTACGTACGT"), 4, 1);
    let g2 = GenomeComparison::build(query.clone(), codes("GGGGGGGG"), 4, 1);
    let mut sim = Simulation::new(config(), g1, g2, None);
    assert_eq!(sim.compare_at(0), (true, false, false));
    assert_eq!(sim.compare_at(4), (false, false, false));
    sim.update_state(true, false, false);
    assert_eq!(sim.get_state().human_genome1, 1);
    sim.run_simulation(20);
    let st = sim.get_state();
    assert_eq!(st.total_comparisons, 21);
    assert_eq!(st.human_genome2 + st.human_genome3 + st.human_genome2_genome3, 0);
    assert_eq!(st.human_only + st.human_genome1, 21);
    let (a, b, c) = sim.run_comparison();
    assert!(!b && !c);
    let _ = a;
    let cfg = sim.get_config();
    assert_eq!(cfg.genome2_name, "Two");
    assert_eq!(cfg.chunk_size, 4);
}

#[test]
fn seed_length_and_shared_query() {
    assert_eq!(GenomeComparison::part_size_for(42, 5), 7);
    assert_eq!(GenomeComparison::part_size_for(4, 1), 2);
    assert_eq!(GenomeComparison::part_size_for(3, 5), 0);
    let a = GenomeComparison::build(codes("ACGT"), codes("ACGTACGT"), 4, 1);
    let b = GenomeComparison::build(codes("ACGT"), codes("GGGGGGGG"), 4, 1);
    let c = GenomeComparison::build(codes("ACGA"), codes("ACGTACGT"), 4, 1);
    let d = GenomeComparison::build(codes("ACG"), codes("ACGTACGT"), 3, 1);
    assert!(a.same_query(&b));
    assert!(!a.same_query(&c));
    assert!(!a.same_query(&d));
}

#[test]
fn sampled_counters_only_grow() {
    let query = codes("ACGTACGA");
    let g1 = GenomeComparison::build(query.clone(), codes("ACGTACGTACGT"), 4, 1);
    let g2 = GenomeComparison::build(query.clone(), codes("TTTTTTTT"), 4, 1);
    let g3 = GenomeComparison::build(query.clone(), codes("ACGAACGA"), 4, 1);
    let mut sim = Simulation::new(config(), g1, g2, Some(g3));
    sim.run_simulation(5);
    let before = sim.get_state();
    sim.run_simulation(7);
    let after = sim.get_state();
    assert_eq!(after.total_comparisons, 12);
    assert!(after.human_genome1_genome3 >= before.human_genome1_genome3);
    assert!(after.human_genome1 >= before.human_genome1);
    // Every window of this query matches the first target and none the second.
    assert_eq!(after.human_genome1 + after.human_genome1_genome3, 12);
}
