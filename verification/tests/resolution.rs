use mesh2vtk::model::{ByteOrder, Compressor, ConvertOptions, Geometry, Group, MeshInfo, VtkFormat};
use mesh2vtk::parse::{is_total_token, parse_index_token};
use mesh2vtk::resolve::{
    finish_absolute_targets, get_targets, group_set, groups_to_index_set, index_set,
    index_set_resolution, plan_absolute_targets, targets_to_usize, AbsoluteDim, TargetOutcome,
};

fn tokens(ts: &[&str]) -> Vec<String> {
    ts.iter().map(|t| t.to_string()).collect()
}

fn opts_with(total: bool, absolute: bool, energy: &[&str], time: &[&str]) -> ConvertOptions {
    ConvertOptions {
        total,
        absolute,
        energy: tokens(energy),
        time: tokens(time),
        no_error: false,
        endian: ByteOrder::BigEndian,
        compressor: Compressor::Lzma,
        resolution: None,
        output: "fmesh".to_string(),
        format: VtkFormat::Xml,
    }
}

fn mesh(ebins: usize, tbins: usize) -> MeshInfo {
    MeshInfo {
        energy_bin_count: ebins,
        time_bin_count: tbins,
        tally_id: 104,
        geometry: Geometry::Rectangular,
    }
}

#[test]
fn empty_tokens_give_full_range() {
    assert_eq!(index_set(&tokens(&[]), 4), vec![0, 1, 2, 3, 4]);
    assert_eq!(index_set(&tokens(&[]), 0), vec![0]);
}

#[test]
fn unparseable_tokens_fall_back_with_warning() {
    let r = index_set_resolution(&tokens(&["foo", "-1", "1.5"]), 3);
    assert!(r.fell_back);
    assert_eq!(r.indices, vec![0, 1, 2, 3]);
}

#[test]
fn parseable_tokens_do_not_fall_back() {
    let r = index_set_resolution(&tokens(&["2", "nonsense"]), 3);
    assert!(!r.fell_back);
    assert_eq!(r.indices, vec![2]);
}

#[test]
fn total_keyword_maps_to_last_index_any_case() {
    for t in ["total", "TOTAL", "Total", "tOtAl"] {
        assert_eq!(index_set(&tokens(&[t]), 7), vec![7]);
        assert_eq!(index_set(&tokens(&[t, "1"]), 7), vec![1, 7]);
    }
}

#[test]
fn total_keyword_alone_never_falls_back() {
    let r = index_set_resolution(&tokens(&["junk", "Total"]), 5);
    assert!(!r.fell_back);
    assert_eq!(r.indices, vec![5]);
}

#[test]
fn result_is_sorted_and_deduplicated() {
    assert_eq!(index_set(&tokens(&["6", "2", "2", "0", "6"]), 9), vec![0, 2, 6]);
    assert_eq!(index_set(&tokens(&["3", "total", "3"]), 3), vec![3]);
}

#[test]
fn out_of_range_indices_are_kept() {
    // bounds checking is the consumer's job, not the resolver's
    assert_eq!(index_set(&tokens(&["12"]), 4), vec![12]);
}

#[test]
fn plus_sign_and_leading_zeros_parse() {
    assert_eq!(index_set(&tokens(&["+3", "007"]), 9), vec![3, 7]);
}

#[test]
fn oversized_number_is_dropped() {
    let r = index_set_resolution(&tokens(&["99999999999999999999999999"]), 3);
    assert!(r.fell_back);
    assert_eq!(r.indices, vec![0, 1, 2, 3]);
}

#[test]
fn resolving_twice_is_identical() {
    let ts = tokens(&["5", "1", "total", "5", "oops"]);
    let a = index_set(&ts, 8);
    let b = index_set(&ts, 8);
    assert_eq!(a, b);
    assert_eq!(a, vec![1, 5, 8]);
}

#[test]
fn totals_only_overrides_other_filters() {
    let m = mesh(5, 3);
    match get_targets(&m, &opts_with(true, false, &["1", "2"], &["0"])) {
        TargetOutcome::Resolved { energy, time } => {
            assert_eq!(energy.indices, vec![4]);
            assert_eq!(time.indices, vec![2]);
            assert!(!energy.fell_back);
            assert!(!time.fell_back);
        }
        TargetOutcome::NeedsAbsolute => panic!("totals-only must resolve"),
    }
}

#[test]
fn totals_only_overrides_absolute_flag() {
    let m = mesh(2, 2);
    match get_targets(&m, &opts_with(true, true, &[], &[])) {
        TargetOutcome::Resolved { energy, time } => {
            assert_eq!(energy.indices, vec![1]);
            assert_eq!(time.indices, vec![1]);
        }
        TargetOutcome::NeedsAbsolute => panic!("totals-only must resolve"),
    }
}

#[test]
fn index_mode_resolves_both_dimensions() {
    let m = mesh(6, 4);
    match get_targets(&m, &opts_with(false, false, &["2", "0"], &[])) {
        TargetOutcome::Resolved { energy, time } => {
            assert_eq!(energy.indices, vec![0, 2]);
            assert_eq!(time.indices, vec![0, 1, 2, 3]);
        }
        TargetOutcome::NeedsAbsolute => panic!("index mode must resolve"),
    }
}

#[test]
fn absolute_mode_defers_to_lookups() {
    let m = mesh(6, 4);
    match get_targets(&m, &opts_with(false, true, &["1.0"], &[])) {
        TargetOutcome::Resolved { .. } => panic!("absolute mode needs the mesh lookup"),
        TargetOutcome::NeedsAbsolute => {}
    }
}

#[test]
fn group_set_sorts_and_deduplicates() {
    let g = group_set(&[30, 10, 20, 10], false);
    assert_eq!(g, vec![Group::Value(10), Group::Value(20), Group::Value(30)]);
}

#[test]
fn group_set_puts_total_last() {
    let g = group_set(&[20, 10], true);
    assert_eq!(g, vec![Group::Value(10), Group::Value(20), Group::Total]);
    assert_eq!(group_set(&[], true), vec![Group::Total]);
}

#[test]
fn group_set_twice_is_identical() {
    let a = group_set(&[7, 7, 3], true);
    let b = group_set(&[7, 7, 3], true);
    assert_eq!(a, b);
}

#[test]
fn absolute_lookups_keep_found_indices() {
    // a mesh with energy bins over {0.1, 1.0, 20.0} and Total: the
    // tokens "1.0" and "total" resolve to the two owning indices
    let groups = group_set(&[1_000_000, /* key of 1.0 MeV */ ], true);
    assert_eq!(groups.len(), 2);
    let lookups = vec![Some(1usize), Some(3usize)];
    let r = groups_to_index_set(&lookups, 4);
    assert!(!r.fell_back);
    assert_eq!(r.indices, vec![1, 3]);
}

#[test]
fn absolute_lookup_failures_are_dropped_per_group() {
    let lookups = vec![None, Some(2usize), None];
    let r = groups_to_index_set(&lookups, 5);
    assert!(!r.fell_back);
    assert_eq!(r.indices, vec![2]);
}

#[test]
fn all_lookups_failing_falls_back() {
    let lookups: Vec<Option<usize>> = vec![None, None];
    let r = groups_to_index_set(&lookups, 3);
    assert!(r.fell_back);
    assert_eq!(r.indices, vec![0, 1, 2]);
}

#[test]
fn absolute_plan_empty_tokens_select_all_bins() {
    let m = mesh(4, 3);
    let o = opts_with(false, true, &[], &["1.0"]);
    let (energy, time) = plan_absolute_targets(&m, &o, &[], &[10]);
    match energy {
        AbsoluteDim::AllBins(res) => {
            assert!(!res.fell_back);
            assert_eq!(res.indices, vec![0, 1, 2, 3]);
        }
        AbsoluteDim::Lookup(_) => panic!("no tokens must select every bin"),
    }
    match time {
        AbsoluteDim::Lookup(groups) => assert_eq!(groups, vec![Group::Value(10)]),
        AbsoluteDim::AllBins(_) => panic!("tokens must build a group set"),
    }
}

#[test]
fn absolute_finish_pairs_energy_then_time() {
    // energy bins over {0.1, 1.0, 20.0} MeV and Total: the tokens
    // "1.0" and "total" resolve to the two owning indices; the time
    // dimension has no tokens and keeps all its bins
    let m = mesh(4, 3);
    let o = opts_with(false, true, &["1.0", "total"], &[]);
    let plans = plan_absolute_targets(&m, &o, &[10], &[]);
    let (energy, time) = finish_absolute_targets(plans, &[Some(1), Some(3)], &[], &m);
    assert!(!energy.fell_back);
    assert_eq!(energy.indices, vec![1, 3]);
    assert!(!time.fell_back);
    assert_eq!(time.indices, vec![0, 1, 2]);
}

#[test]
fn absolute_finish_falls_back_when_every_lookup_fails() {
    let m = mesh(4, 3);
    let o = opts_with(false, true, &["5.0"], &["2.0"]);
    let plans = plan_absolute_targets(&m, &o, &[50], &[20]);
    let (energy, time) = finish_absolute_targets(plans, &[None], &[Some(0)], &m);
    assert!(energy.fell_back);
    assert_eq!(energy.indices, vec![0, 1, 2, 3]);
    assert!(!time.fell_back);
    assert_eq!(time.indices, vec![0]);
}

#[test]
fn targets_to_usize_keeps_order_and_drops_junk() {
    assert_eq!(targets_to_usize(&tokens(&["4", "x", "1", "total"])), vec![4, 1]);
    assert_eq!(targets_to_usize(&tokens(&[])), Vec::<usize>::new());
}

#[test]
fn token_parsing_edges() {
    assert_eq!(parse_index_token("007"), Some(7));
    assert_eq!(parse_index_token("+3"), Some(3));
    assert_eq!(parse_index_token(""), None);
    assert_eq!(parse_index_token("+"), None);
    assert_eq!(parse_index_token("1 "), None);
    assert_eq!(parse_index_token("-1"), None);
    assert_eq!(parse_index_token("18446744073709551615"), Some(usize::MAX));
    assert_eq!(parse_index_token("18446744073709551616"), None);
    assert!(is_total_token("ToTaL"));
    assert!(!is_total_token("totals"));
    assert!(!is_total_token("tota"));
}
