//! The requests that the backend makes, its errors, and the parts that it is made of.

use gaugemc::arrays::{valid_shape, CountArray, IntArray};
use gaugemc::backend::{CudaBackend, PlaquettePairData, WilsonLoopData};
use gaugemc::device::{
    Buffer, DeviceOp, HostData, Kernel, KernelArg, Launch, LaunchConfig,
};
use gaugemc::dual_state::DualState;
use gaugemc::error::{decimal, decimal_list, CudaError};
use gaugemc::histogram::{can_count_rows, count_rows};
use gaugemc::lattice::{Dimension, SiteIndex};
use gaugemc::mesh::mesh_point;
use gaugemc::random::choose_seed;
use gaugemc::redirect::{can_permute, redirect_rows, RedirectArrays};
use gaugemc::sizes::fits;
use gaugemc::tempering::{propose_swaps, undo_rejected, TemperingTracker};

fn backend(n: usize, b: [usize; 4], npots: usize) -> CudaBackend {
    let bounds = SiteIndex::new(b[0], b[1], b[2], b[3]);
    CudaBackend::new(bounds, (n, npots), (n, 7), None, Some(1), false).unwrap().0
}

fn site_args(n: usize, b: [usize; 4]) -> Vec<KernelArg> {
    vec![
        KernelArg::Size(n),
        KernelArg::Size(b[0]),
        KernelArg::Size(b[1]),
        KernelArg::Size(b[2]),
        KernelArg::Size(b[3]),
    ]
}

fn config(blocks: u32) -> LaunchConfig {
    LaunchConfig { grid_dim: (blocks, 1, 1), block_dim: (1024, 1, 1), shared_mem_bytes: 0 }
}

fn run(kernel: Kernel, head: Vec<KernelArg>, tail: Vec<KernelArg>, blocks: u32) -> DeviceOp {
    let mut args = head;
    args.extend(tail);
    DeviceOp::Run(Launch { kernel, args, config: config(blocks) })
}

fn message<T>(r: Result<T, CudaError>) -> String {
    match r {
        Err(CudaError::Value(s)) => s,
        Err(e) => panic!("{:?}", e),
        Ok(_) => panic!("expected an error"),
    }
}

#[test]
fn launches_have_enough_blocks() {
    assert_eq!(LaunchConfig::for_num_elems(0), config(0));
    assert_eq!(LaunchConfig::for_num_elems(1), config(1));
    assert_eq!(LaunchConfig::for_num_elems(1024), config(1));
    assert_eq!(LaunchConfig::for_num_elems(1025), config(2));
    assert_eq!(LaunchConfig::for_num_elems(u32::MAX), config(1 << 22));
    assert_eq!(CudaBackend::get_launch_config(1025, None), config(2));
    assert_eq!(
        CudaBackend::get_launch_config(1025, Some(256)),
        LaunchConfig { grid_dim: (5, 1, 1), block_dim: (256, 1, 1), shared_mem_bytes: 0 }
    );
    assert_eq!(
        CudaBackend::get_launch_config(1, Some(3)),
        LaunchConfig { grid_dim: (1, 1, 1), block_dim: (3, 1, 1), shared_mem_bytes: 0 }
    );
}

#[test]
fn kernels_have_their_names() {
    let names: Vec<&str> = Kernel::all().iter().map(|k| k.name()).collect();
    assert_eq!(
        names,
        vec![
            "single_local_update_plaquettes",
            "calculate_edge_sums",
            "partial_sum_energies",
            "sum_buffer",
            "global_update_sweep",
            "sum_winding",
            "update_matter_loops",
            "calculate_matter_flow_through_coords",
            "calculate_matter_corners_for_plaquettes",
            "wilson_loop_probs",
            "wilson_loop_probs_incremental_square",
            "initialize_wilson_loops_for_probs",
            "initialize_wilson_loops_for_probs_incremental_square",
            "plane_shift_update",
            "sum_int_buffer",
            "partial_count_plaquettes",
            "partial_count_edges",
            "count_plaquette_pairs_with_increasing_z",
            "charge_update",
        ]
    );
}

#[test]
fn odd_extents_are_refused() {
    for (b, list) in [
        ([3, 4, 4, 4], "[3, 4, 4, 4]"),
        ([4, 4, 4, 11], "[4, 4, 4, 11]"),
        ([2, 5, 7, 2], "[2, 5, 7, 2]"),
    ] {
        let bounds = SiteIndex::new(b[0], b[1], b[2], b[3]);
        for n in [0, 2] {
            let r = CudaBackend::new(bounds, (n, 2), (n, 2), None, None, false);
            assert_eq!(message(r), format!("Expected all dims to be even, found: {}", list));
        }
    }
}

#[test]
fn no_replicas_are_refused() {
    let r = CudaBackend::new(SiteIndex::new(4, 4, 4, 4), (0, 2), (0, 2), None, None, false);
    assert_eq!(message(r), "Replica number must be larger than 0");
}

#[test]
fn setup_fills_the_device() {
    let volumes = IntArray::from_shape_vec(&[3, 2, 2, 2, 2, 4], vec![0; 192]).unwrap();
    let state = DualState::new_volumes(volumes);
    let (backend, ops) = CudaBackend::new(
        SiteIndex::new(2, 2, 2, 2),
        (3, 5),
        (3, 7),
        Some(state),
        Some(9),
        true,
    )
    .unwrap();
    assert_eq!(backend.nreplicas, 3);
    assert_eq!(backend.potential_size, 5);
    assert_eq!(backend.edge_potential_size, 7);
    assert_eq!(
        ops,
        vec![
            DeviceOp::AllocZeros { buffer: Buffer::State, len: 288 },
            DeviceOp::Upload { buffer: Buffer::State, data: HostData::I32(vec![0; 288]) },
            DeviceOp::AllocZeros { buffer: Buffer::Potential, len: 15 },
            DeviceOp::Upload { buffer: Buffer::Potential, data: HostData::FromCaller },
            DeviceOp::AllocZeros { buffer: Buffer::EdgePotential, len: 21 },
            DeviceOp::Upload { buffer: Buffer::EdgePotential, data: HostData::FromCaller },
            DeviceOp::AllocZeros { buffer: Buffer::WindingChemicalPotential, len: 3 },
            DeviceOp::Upload {
                buffer: Buffer::WindingChemicalPotential,
                data: HostData::FromCaller,
            },
            DeviceOp::AllocZeros { buffer: Buffer::PotentialRedirect, len: 3 },
            DeviceOp::Upload {
                buffer: Buffer::PotentialRedirect,
                data: HostData::U32(vec![0, 1, 2]),
            },
            DeviceOp::AllocZeros { buffer: Buffer::EdgePotentialRedirect, len: 3 },
            DeviceOp::Upload {
                buffer: Buffer::EdgePotentialRedirect,
                data: HostData::U32(vec![0, 1, 2]),
            },
            DeviceOp::AllocZeros { buffer: Buffer::Rng, len: 72 },
            DeviceOp::Upload { buffer: Buffer::Rng, data: HostData::Zeros(72) },
            DeviceOp::SeedRng { seed: 9 },
        ]
    );
}

#[test]
fn random_numbers_suffice_for_local_and_global_updates() {
    let len = |b: [usize; 4]| {
        let bounds = SiteIndex::new(b[0], b[1], b[2], b[3]);
        let (backend, ops) =
            CudaBackend::new(bounds, (2, 2), (2, 2), None, Some(1), false).unwrap();
        let (local, global) =
            (backend.simultaneous_local_updates(), backend.global_updates_planes());
        let found = ops.iter().find_map(|op| match op {
            DeviceOp::AllocZeros { buffer: Buffer::Rng, len } => Some(*len),
            _ => None,
        });
        (local, global, found.unwrap())
    };
    assert_eq!(len([2, 2, 2, 2]), (16, 48, 48));
    assert_eq!(len([4, 4, 4, 4]), (256, 192, 256));
    assert_eq!(len([2, 4, 6, 8]), (384, 280, 384));
}

#[test]
fn a_sweep_runs_every_local_update_once() {
    let mut state = backend(2, [4, 4, 4, 4], 5);
    for _ in 0..20 {
        let ops = state.run_local_update_sweep();
        assert_eq!(ops.len(), 16);
        let mut kinds = Vec::new();
        for pair in ops.chunks(2) {
            assert_eq!(pair[0], DeviceOp::FillUniform { buffer: Buffer::Rng });
            match &pair[1] {
                DeviceOp::Run(launch) => {
                    assert_eq!(launch.kernel, Kernel::SingleLocalUpdatePlaquettes);
                    match (launch.args[5], launch.args[6]) {
                        (KernelArg::Short(v), KernelArg::Flag(o)) => kinds.push((v, o)),
                        other => panic!("{:?}", other),
                    }
                }
                other => panic!("{:?}", other),
            }
        }
        assert_eq!(kinds, state.local_update_types);
        kinds.sort();
        let all: Vec<(u16, bool)> = (0..4).flat_map(|v| [(v, false), (v, true)]).collect();
        assert_eq!(kinds, all);
    }
}

#[test]
fn a_sweep_runs_every_charge_update_once() {
    let mut state = backend(2, [4, 4, 4, 4], 5);
    let before = state.local_update_types.clone();
    let ops = state.run_charge_update_sweep();
    assert_eq!(ops.len(), 12);
    assert_eq!(state.local_update_types, before);
    let mut kinds = state.charge_update_types.clone();
    kinds.sort();
    assert_eq!(
        kinds,
        vec![(0, false), (0, true), (1, false), (1, true), (3, false), (3, true)]
    );
}

#[test]
fn sweeps_come_in_different_orders() {
    let mut state = backend(1, [4, 4, 4, 4], 5);
    let mut orders = Vec::new();
    for _ in 0..50 {
        state.run_local_update_sweep();
        orders.push(state.local_update_types.clone());
    }
    orders.sort();
    orders.dedup();
    assert!(orders.len() > 1);
}

#[test]
fn updates_have_their_arguments() {
    let b = [4, 6, 8, 10];
    let state = backend(3, b, 5);
    assert_eq!(
        state.run_single_local_update_single(2, true),
        vec![
            DeviceOp::FillUniform { buffer: Buffer::Rng },
            run(
                Kernel::SingleLocalUpdatePlaquettes,
                vec![
                    KernelArg::Read(Buffer::State),
                    KernelArg::Read(Buffer::Potential),
                    KernelArg::Read(Buffer::PotentialRedirect),
                    KernelArg::Size(5),
                    KernelArg::Read(Buffer::Rng),
                    KernelArg::Short(2),
                    KernelArg::Flag(true),
                ],
                site_args(3, b),
                3,
            ),
        ]
    );
    assert_eq!(
        state.run_charge_update(3, false),
        vec![
            DeviceOp::FillUniform { buffer: Buffer::Rng },
            run(
                Kernel::ChargeUpdate,
                vec![
                    KernelArg::Read(Buffer::State),
                    KernelArg::Read(Buffer::EdgePotential),
                    KernelArg::Read(Buffer::EdgePotentialRedirect),
                    KernelArg::Size(7),
                    KernelArg::Read(Buffer::Potential),
                    KernelArg::Read(Buffer::PotentialRedirect),
                    KernelArg::Size(5),
                    KernelArg::Read(Buffer::Rng),
                    KernelArg::Short(3),
                    KernelArg::Flag(false),
                ],
                site_args(3, b),
                3,
            ),
        ]
    );
    assert_eq!(
        state.run_global_update_sweep(),
        vec![
            DeviceOp::FillUniform { buffer: Buffer::Rng },
            run(
                Kernel::GlobalUpdateSweep,
                vec![
                    KernelArg::Write(Buffer::State),
                    KernelArg::Read(Buffer::Potential),
                    KernelArg::Read(Buffer::WindingChemicalPotential),
                    KernelArg::Read(Buffer::PotentialRedirect),
                    KernelArg::Size(5),
                    KernelArg::Read(Buffer::Rng),
                ],
                site_args(3, b),
                1,
            ),
        ]
    );
    assert_eq!(
        state.run_single_matter_update_single(5, 3),
        vec![
            DeviceOp::FillUniform { buffer: Buffer::Rng },
            run(
                Kernel::UpdateMatterLoops,
                vec![
                    KernelArg::Read(Buffer::State),
                    KernelArg::Read(Buffer::Potential),
                    KernelArg::Read(Buffer::WindingChemicalPotential),
                    KernelArg::Read(Buffer::PotentialRedirect),
                    KernelArg::Size(5),
                    KernelArg::Read(Buffer::Rng),
                    KernelArg::Short(23),
                ],
                site_args(3, b),
                2,
            ),
        ]
    );
}

#[test]
fn plane_shifts_take_half_of_the_normal_plane() {
    let b = [40, 60, 80, 100];
    let state = backend(1, b, 5);
    let blocks = [4, 3, 3, 2, 2, 2];
    for p in 0..6 {
        let ops = state.run_plane_shift_with_offset(p, true);
        assert_eq!(
            ops[1],
            run(
                Kernel::PlaneShiftUpdate,
                vec![
                    KernelArg::Write(Buffer::State),
                    KernelArg::Read(Buffer::Potential),
                    KernelArg::Read(Buffer::PotentialRedirect),
                    KernelArg::Size(5),
                    KernelArg::Read(Buffer::Rng),
                    KernelArg::Short(p),
                    KernelArg::Flag(true),
                ],
                site_args(1, b),
                blocks[p as usize],
            )
        );
    }
    let off = state.run_plane_shift_with_offset(0, false);
    let on = state.run_plane_shift_with_offset(0, true);
    let (mut first_off, mut first_on) = (false, false);
    for _ in 0..100 {
        let both = state.run_plane_shift(0);
        assert_eq!(both.len(), 4);
        if both[..2] == off[..] {
            assert_eq!(both[2..], on[..]);
            first_off = true;
        } else {
            assert_eq!(both[..2], on[..]);
            assert_eq!(both[2..], off[..]);
            first_on = true;
        }
    }
    assert!(first_off && first_on);
}

#[test]
fn measurements_have_their_arguments() {
    let b = [2, 4, 6, 8];
    let state = backend(2, b, 5);
    assert_eq!(
        state.fetch_plaquettes(),
        vec![DeviceOp::Download { buffer: Buffer::State, len: 4608 }]
    );
    assert_eq!(
        state.fetch_matter_flow_per_coordinate(),
        vec![
            DeviceOp::AllocZeros { buffer: Buffer::ScratchI32, len: 768 },
            run(
                Kernel::CalculateMatterFlowThroughCoords,
                vec![KernelArg::Read(Buffer::State), KernelArg::Write(Buffer::ScratchI32)],
                site_args(2, b),
                1,
            ),
            DeviceOp::Download { buffer: Buffer::ScratchI32, len: 768 },
        ]
    );
    assert_eq!(
        state.fetch_matter_corner_per_plaquette(4),
        vec![
            DeviceOp::AllocZeros { buffer: Buffer::ScratchI32, len: 3072 },
            run(
                Kernel::CalculateMatterCornersForPlaquettes,
                vec![
                    KernelArg::Read(Buffer::State),
                    KernelArg::Write(Buffer::ScratchI32),
                    KernelArg::Short(4),
                ],
                site_args(2, b),
                1,
            ),
            DeviceOp::Download { buffer: Buffer::ScratchI32, len: 3072 },
        ]
    );
    assert_eq!(
        state.fetch_winding_per_replica(),
        vec![
            DeviceOp::AllocZeros { buffer: Buffer::ScratchI32, len: 12 },
            run(
                Kernel::SumWinding,
                vec![KernelArg::Write(Buffer::State), KernelArg::Write(Buffer::ScratchI32)],
                site_args(2, b),
                1,
            ),
            DeviceOp::Download { buffer: Buffer::ScratchI32, len: 12 },
        ]
    );
    assert_eq!(
        state.fetch_action_per_replica()[2..],
        [
            run(
                Kernel::SumBuffer,
                vec![
                    KernelArg::Write(Buffer::ScratchFloat),
                    KernelArg::Size(16),
                    KernelArg::Size(6),
                ],
                vec![],
                1,
            ),
            run(
                Kernel::SumBuffer,
                vec![
                    KernelArg::Write(Buffer::ScratchFloat),
                    KernelArg::Size(4),
                    KernelArg::Size(4),
                ],
                vec![],
                1,
            ),
            run(
                Kernel::SumBuffer,
                vec![
                    KernelArg::Write(Buffer::ScratchFloat),
                    KernelArg::Size(2),
                    KernelArg::Size(2),
                ],
                vec![],
                1,
            ),
            DeviceOp::Download { buffer: Buffer::ScratchFloat, len: 2 },
        ]
    );
    assert_eq!(
        state.fetch_edge_counts(),
        vec![
            DeviceOp::AllocZeros { buffer: Buffer::ScratchU32, len: 784 },
            run(
                Kernel::PartialCountEdges,
                vec![
                    KernelArg::Write(Buffer::State),
                    KernelArg::Write(Buffer::ScratchU32),
                    KernelArg::Size(24),
                ],
                site_args(2, b),
                1,
            ),
            run(
                Kernel::SumIntBuffer,
                vec![
                    KernelArg::Write(Buffer::ScratchU32),
                    KernelArg::Size(98),
                    KernelArg::Size(8),
                ],
                vec![],
                1,
            ),
            DeviceOp::Download { buffer: Buffer::ScratchU32, len: 98 },
        ]
    );
}

#[test]
fn results_are_read_by_potential() {
    let mut state = backend(3, [2, 2, 2, 2], 2);
    let raw: Vec<i32> = (0..48).collect();
    let kept = state.get_matter_flow_per_coordinate(raw.clone());
    assert_eq!(kept.shape(), vec![3, 2, 2, 2, 2]);
    assert_eq!(kept.as_slice(), raw.as_slice());
    let (redirect, ops) = state.permute_states(&[1, 2, 0]);
    assert_eq!(redirect, vec![1, 2, 0]);
    assert_eq!(
        ops,
        vec![DeviceOp::Upload {
            buffer: Buffer::PotentialRedirect,
            data: HostData::U32(vec![1, 2, 0]),
        }]
    );
    assert_eq!(state.get_matter_flow_per_coordinate(raw.clone()), kept);
    state.states_permuted(redirect);
    let moved = state.get_matter_flow_per_coordinate(raw.clone());
    assert_eq!(moved.as_slice()[..16], raw[32..]);
    assert_eq!(moved.as_slice()[16..32], raw[..16]);
    assert_eq!(moved.as_slice()[32..], raw[16..32]);
    assert_eq!(state.get_action_per_replica(vec!['a', 'b', 'c']), vec!['c', 'a', 'b']);
    let corners = state.get_matter_corner_per_plaquette((0..192).collect());
    assert_eq!(corners.shape(), vec![3, 2, 2, 2, 2, 4]);
    assert_eq!(corners.get(&[1, 0, 0, 0, 0, 3]), Some(3));
    assert_eq!(corners.get(&[0, 1, 1, 1, 1, 3]), Some(191));
    let windings = state.get_winding_per_replica((0..18).collect());
    assert_eq!(windings.as_slice()[..6], [12, 13, 14, 15, 16, 17]);
    let counts = state.get_plaquette_counts(vec![1, 2, 3, 4, 5, 6, 7, 8, 9]);
    assert_eq!(counts.as_slice(), &[1, 2, 3, 4, 5, 6, 7, 8, 9]);
}

#[test]
fn wilson_loops_need_one_entry_per_replica() {
    let state = backend(3, [4, 4, 4, 4], 2);
    assert_eq!(
        message(state.initialize_wilson_loops_per_replica(vec![(1, 1)], 0)),
        "With 3 replicas expected 3 aspect ratios but found 1"
    );
    assert_eq!(
        message(state.initialize_wilson_loops_for_probs_incremental_square(vec![0; 12], 0)),
        "With 3 replicas expected 3 aspect ratios but found 12"
    );
}

#[test]
fn wilson_loops_have_to_be_initialized() {
    let mut state = backend(3, [4, 4, 4, 4], 2);
    let text = "Initialization has not been run.";
    assert_eq!(message(state.reset_wilson_loop_transition_probs()), text);
    assert_eq!(message(state.calculate_wilson_loop_transition_probs()), text);
    assert_eq!(message(state.get_wilson_loop_transition_probs()), text);
    assert_eq!(message(state.get_wilson_loop_transition_probs_into()), text);
}

#[test]
fn wilson_loops_are_lost_when_the_device_fails() {
    let mut state = backend(2, [4, 6, 8, 10], 5);
    let (data, ops) =
        state.initialize_wilson_loops_per_replica(vec![(1, 2), (3, 4)], 5).unwrap();
    assert!(state.wilson_loop_probs.is_none());
    assert_eq!(data, WilsonLoopData::AspectRatios { plaquette_type: 5, times_run: 0 });
    assert_eq!(
        ops,
        vec![
            DeviceOp::AllocZeros { buffer: Buffer::ScratchU32, len: 4 },
            DeviceOp::Upload {
                buffer: Buffer::ScratchU32,
                data: HostData::U32(vec![1, 2, 3, 4]),
            },
            run(
                Kernel::InitializeWilsonLoopsForProbs,
                vec![
                    KernelArg::Write(Buffer::State),
                    KernelArg::Read(Buffer::ScratchU32),
                    KernelArg::Short(5),
                ],
                site_args(2, [4, 6, 8, 10]),
                1,
            ),
            DeviceOp::AllocZeros { buffer: Buffer::ScratchFloat, len: 12 },
            DeviceOp::Keep { from: Buffer::ScratchU32, to: Buffer::AspectRatios },
            DeviceOp::Keep { from: Buffer::ScratchFloat, to: Buffer::Probs },
        ]
    );
    state.wilson_loops_ready(data);
    let (data, ops) = state.calculate_wilson_loop_transition_probs().unwrap();
    assert_eq!(data, WilsonLoopData::AspectRatios { plaquette_type: 5, times_run: 1 });
    assert_eq!(
        ops,
        vec![run(
            Kernel::WilsonLoopProbs,
            vec![
                KernelArg::Write(Buffer::State),
                KernelArg::Read(Buffer::Potential),
                KernelArg::Read(Buffer::WindingChemicalPotential),
                KernelArg::Read(Buffer::PotentialRedirect),
                KernelArg::Size(5),
                KernelArg::Read(Buffer::AspectRatios),
                KernelArg::Write(Buffer::Probs),
                KernelArg::Short(5),
                KernelArg::Size(2),
                KernelArg::Size(4 * 65536 + 6),
                KernelArg::Size(8 * 65536 + 10),
            ],
            vec![],
            1,
        )]
    );
    assert!(state.wilson_loop_probs.is_none());
    assert!(state.calculate_wilson_loop_transition_probs().is_err());
    state.wilson_loops_ready(data);
    let (data, ops) = state.get_wilson_loop_transition_probs_into().unwrap();
    assert_eq!(ops, vec![DeviceOp::Download { buffer: Buffer::Probs, len: 12 }]);
    assert_eq!(data.divisor(), Some(1));
    state.wilson_loops_ready(data);
    let ops = state.reset_wilson_loop_transition_probs().unwrap();
    assert_eq!(ops, vec![DeviceOp::Clear { buffer: Buffer::Probs }]);
    assert_eq!(state.wilson_loop_probs.unwrap().divisor(), None);
}

#[test]
fn wilson_loops_of_squares_have_two_probabilities() {
    let mut state = backend(2, [4, 4, 4, 4], 5);
    let (data, ops) =
        state.initialize_wilson_loops_for_probs_incremental_square(vec![7, 8], 1).unwrap();
    assert_eq!(
        ops[1],
        DeviceOp::Upload { buffer: Buffer::ScratchU32, data: HostData::U32(vec![7, 8]) }
    );
    assert_eq!(ops[3], DeviceOp::AllocZeros { buffer: Buffer::ScratchFloat, len: 4 });
    assert_eq!(
        ops[4],
        DeviceOp::Keep { from: Buffer::ScratchU32, to: Buffer::Increments }
    );
    state.wilson_loops_ready(data);
    assert_eq!(state.get_wilson_loop_transition_probs(), Ok((2, 2)));
    let (data, ops) = state.calculate_wilson_loop_transition_probs().unwrap();
    assert_eq!(data, WilsonLoopData::IncrementOnSquares { plaquette_type: 1, times_run: 1 });
    match &ops[0] {
        DeviceOp::Run(launch) => {
            assert_eq!(launch.kernel, Kernel::WilsonLoopProbsIncrementalSquare);
            assert_eq!(launch.args[5], KernelArg::Read(Buffer::Increments));
        }
        other => panic!("{:?}", other),
    }
}

#[test]
fn loop_sizes_are_cut_to_words() {
    let state = backend(1, [4, 4, 4, 4], 5);
    let large = (1usize << 32) + 5;
    let (_, ops) = state.initialize_wilson_loops_per_replica(vec![(large, 1)], 0).unwrap();
    assert_eq!(
        ops[1],
        DeviceOp::Upload { buffer: Buffer::ScratchU32, data: HostData::U32(vec![5, 1]) }
    );
}

#[test]
fn pair_counts_keep_their_limits() {
    let b = [4, 4, 4, 4];
    let mut state = backend(2, b, 3);
    assert!(state.fetch_plaquette_pair_counts().is_none());
    assert!(state.get_plaquette_pair_counts(vec![]).is_none());
    let (pairs, ops) = state.reserve_plaquette_pair_counts(1, 3).unwrap();
    assert_eq!(pairs, PlaquettePairData { max_abs_value: 1, max_distance: 3 });
    assert_eq!(ops, vec![DeviceOp::AllocZeros { buffer: Buffer::PairCounts, len: 324 }]);
    state.plaquette_pair_counts_ready(pairs);
    assert!(state.reserve_plaquette_pair_counts(1, 3).is_none());
    assert_eq!(
        state.accumulate_plaquette_pair_counts(1, 3, 4).unwrap(),
        vec![run(
            Kernel::CountPlaquettePairsWithIncreasingZ,
            vec![
                KernelArg::Write(Buffer::State),
                KernelArg::Write(Buffer::PairCounts),
                KernelArg::Word(3),
                KernelArg::Word(1),
                KernelArg::Word(4),
            ],
            site_args(2, b),
            1,
        )]
    );
    assert_eq!(
        message(state.accumulate_plaquette_pair_counts(1, 2, 4)),
        "Existing buffer used max_distance_from_root 3 but was asked for 2"
    );
    assert_eq!(
        message(state.accumulate_plaquette_pair_counts(20, 3, 4)),
        "Existing buffer used max_absolute_integer 1 but was asked for 20"
    );
    assert_eq!(
        message(state.accumulate_plaquette_pair_counts(2, 12, 4)),
        "Existing buffer used max_distance_from_root 3 but was asked for 12"
    );
    assert_eq!(
        state.fetch_plaquette_pair_counts().unwrap(),
        vec![DeviceOp::Download { buffer: Buffer::PairCounts, len: 324 }]
    );
    let table = state.get_plaquette_pair_counts((0..324).collect()).unwrap();
    assert_eq!(table.shape(), vec![2, 3, 6, 3, 3]);
    assert_eq!(table.as_slice()[323], 323);
    assert!(state.get_plaquette_pair_counts(vec![0; 323]).is_none());
    state.clear_plaquette_pair_counts();
    assert!(state.fetch_plaquette_pair_counts().is_none());
    assert!(state.reserve_plaquette_pair_counts(2, 2).is_some());
}

#[test]
fn tempering_permutations_exchange_and_undo() {
    let swaps = [(0, 1), (4, 2)];
    let perm = propose_swaps(5, &swaps);
    assert_eq!(perm, vec![1, 0, 4, 3, 2]);
    assert_eq!(undo_rejected(perm.clone(), &swaps, &[true, false]), vec![0, 1, 4, 3, 2]);
    assert_eq!(undo_rejected(perm.clone(), &swaps, &[false, true]), vec![1, 0, 2, 3, 4]);
    assert_eq!(undo_rejected(perm, &swaps, &[]), vec![1, 0, 4, 3, 2]);
}

#[test]
fn trackers_ignore_the_order_of_a_pair() {
    let mut tracker = TemperingTracker::default();
    tracker.log(5, 2, true);
    tracker.log(2, 5, false);
    tracker.log(5, 2, false);
    tracker.log(1, 1, false);
    assert_eq!(tracker.get_map().get((2, 5)), Some((1, 3)));
    assert_eq!(tracker.get_map().get((1, 1)), Some((0, 1)));
    assert_eq!(tracker.get_map().get((5, 2)), None);
}

#[test]
fn redirections_know_their_inverse() {
    let mut redirect = RedirectArrays::new(vec![2, 0, 1]);
    assert_eq!(redirect.get_redirect(), Some(&[2, 0, 1][..]));
    assert_eq!(redirect.unwrap(3), (vec![2, 0, 1], vec![1, 2, 0]));
    assert_eq!(redirect.describe(), "R[2, 0, 1]");
    let mut identity = RedirectArrays::Identity;
    assert_eq!(identity.get_redirect(), None);
    assert_eq!(identity.describe(), "[Identity]");
    assert_eq!(identity.unwrap(2), (vec![0, 1], vec![0, 1]));
    assert_eq!(identity.describe(), "R[0, 1]");
    assert_eq!(RedirectArrays::settled(vec![0, 1, 2]).describe(), "[Identity]");
    assert_eq!(RedirectArrays::settled(vec![1, 0, 2]).describe(), "R[1, 0, 2]");
    assert_eq!(RedirectArrays::new(vec![]).describe(), "R[]");
    let both = RedirectArrays::new_both(vec![1, 0], vec![1, 0]);
    assert_eq!(both.describe(), "R[1, 0]");
}

#[test]
fn rows_go_where_the_redirection_says() {
    let rows = vec![1, 2, 3, 4, 5, 6];
    assert_eq!(redirect_rows(rows.clone(), 3, 2, None), rows);
    assert_eq!(redirect_rows(rows, 3, 2, Some(&[2, 0, 1])), vec![3, 4, 5, 6, 1, 2]);
}

#[test]
fn histograms_count_every_value() {
    let values = [0, 1, -1, 0, 2, 2, 2, -2];
    assert!(can_count_rows(&values, 2, 4, 2, 5));
    assert_eq!(count_rows(&values, 2, 4, 2, 5), vec![0, 1, 2, 1, 0, 1, 0, 0, 0, 3]);
}

#[test]
fn meshes_run_the_last_index_fastest() {
    assert_eq!(mesh_point(&[2, 3, 4], 0), vec![0, 0, 0]);
    assert_eq!(mesh_point(&[2, 3, 4], 3), vec![0, 0, 3]);
    assert_eq!(mesh_point(&[2, 3, 4], 4), vec![0, 1, 0]);
    assert_eq!(mesh_point(&[2, 3, 4], 23), vec![1, 2, 3]);
}

#[test]
fn arrays_check_their_shape() {
    assert!(IntArray::from_shape_vec(&[2, 3], vec![0; 5]).is_none());
    assert!(IntArray::from_shape_vec(&[usize::MAX, 2, 0], vec![]).is_none());
    assert!(CountArray::from_shape_vec(&[2, 3], vec![0; 7]).is_none());
    let empty = IntArray::from_shape_vec(&[2, 0], vec![]).unwrap();
    assert_eq!(empty.shape(), vec![2, 0]);
    let a = IntArray::from_shape_vec(&[2, 3], vec![10, 11, 12, 20, 21, 22]).unwrap();
    assert_eq!(a.get(&[1, 2]), Some(22));
    assert_eq!(a.get(&[0, 2]), Some(12));
    assert_eq!(a.get(&[2, 0]), None);
    assert_eq!(a.get(&[0, 3]), None);
    assert_eq!(a.clone(), a);
    let c = CountArray::from_shape_vec(&[3, 1], vec![7, 8, 9]).unwrap();
    assert_eq!(c.shape(), vec![3, 1]);
    assert_eq!(c.as_slice(), &[7, 8, 9]);
}

#[test]
fn states_keep_their_plaquettes() {
    let values: Vec<i32> = (0..96).collect();
    let a = IntArray::from_shape_vec(&[1, 2, 2, 2, 2, 6], values).unwrap();
    let state = DualState::new_plaquettes(a.clone());
    assert_eq!(state.get_plaquettes(), &a);
    assert_eq!(state.clone(), state);
}

#[test]
fn a_volume_has_six_faces() {
    let mut v = vec![0; 4 * 4 * 4 * 4 * 4];
    v[0] = 2;
    let volumes = IntArray::from_shape_vec(&[1, 4, 4, 4, 4, 4], v).unwrap();
    let state = DualState::new_volumes(volumes);
    let p = state.get_plaquettes();
    assert_eq!(p.get(&[0, 0, 0, 0, 0, 0]), Some(2));
    assert_eq!(p.get(&[0, 0, 0, 1, 0, 0]), Some(-2));
    assert_eq!(p.get(&[0, 0, 0, 0, 0, 1]), Some(-2));
    assert_eq!(p.get(&[0, 0, 1, 0, 0, 1]), Some(2));
    assert_eq!(p.get(&[0, 0, 0, 0, 0, 3]), Some(2));
    assert_eq!(p.get(&[0, 1, 0, 0, 0, 3]), Some(-2));
    assert_eq!(p.as_slice().iter().filter(|x| **x != 0).count(), 6);
}

#[test]
fn sites_wrap_around() {
    let b = SiteIndex::new(2, 4, 6, 8);
    assert_eq!(b.volume(), 384);
    let s = SiteIndex::new(0, 1, 0, 7);
    assert_eq!(s.lower(Dimension::T, &b), SiteIndex::new(1, 1, 0, 7));
    assert_eq!(s.lower(Dimension::X, &b), SiteIndex::new(0, 0, 0, 7));
    assert_eq!(s.lower(Dimension::Y, &b), SiteIndex::new(0, 1, 5, 7));
    assert_eq!(s.lower(Dimension::Z, &b), SiteIndex::new(0, 1, 0, 6));
    assert_eq!(Dimension::from_index(2), Dimension::Y);
}

#[test]
fn numbers_are_written_in_decimal() {
    assert_eq!(decimal(0), "0");
    assert_eq!(decimal(1070), "1070");
    assert_eq!(decimal(usize::MAX), format!("{}", usize::MAX));
    assert_eq!(decimal_list(&[]), "[]");
    assert_eq!(decimal_list(&[12, 0, 7]), "[12, 0, 7]");
}

#[test]
fn a_given_seed_is_kept() {
    assert_eq!(choose_seed(Some(31415)), 31415);
    let seeds: Vec<u64> = (0..10).map(|_| choose_seed(None)).collect();
    assert!(seeds.iter().any(|s| *s != seeds[0]));
}

#[test]
fn errors_of_the_device_are_passed_on() {
    let driver =
        cudarc::driver::DriverError(cudarc::driver::sys::CUresult::CUDA_ERROR_INVALID_VALUE);
    assert_eq!(CudaError::from(driver), CudaError::Driver(driver));
    let rand = cudarc::curand::result::CurandError(
        cudarc::curand::sys::curandStatus_t::CURAND_STATUS_TYPE_ERROR,
    );
    assert_eq!(CudaError::from(rand), CudaError::Rand(rand));
    let compile = cudarc::nvrtc::CompileError::CreationError(cudarc::nvrtc::result::NvrtcError(
        cudarc::nvrtc::sys::nvrtcResult::NVRTC_ERROR_INVALID_INPUT,
    ));
    assert_eq!(CudaError::from(compile.clone()), CudaError::Compile(compile));
    let value: Result<(), CudaError> = CudaError::value_error(String::from("text"));
    assert_eq!(value, Err(CudaError::Value(String::from("text"))));
}

#[test]
fn lattices_that_are_too_large_are_found() {
    assert!(fits(4, &SiteIndex::new(8, 8, 8, 8)));
    assert!(fits(usize::MAX, &SiteIndex::new(0, 0, 0, 0)));
    assert!(fits(0, &SiteIndex::new(2, usize::MAX / 2, 2, 2)));
    let half = 1usize << (usize::BITS / 2);
    assert!(!fits(1, &SiteIndex::new(half, half, 2, 2)));
    assert!(!fits(1, &SiteIndex::new(half, 2, half / 4, 2)));
    assert!(!fits(2, &SiteIndex::new(0, usize::MAX - 1, 4, 0)));
    assert!(!fits(2, &SiteIndex::new(0, usize::MAX - 1, 0, 2)));
}

#[test]
fn shapes_that_are_too_large_are_found() {
    assert!(valid_shape(&[]));
    assert!(valid_shape(&[isize::MAX as usize, 0, 1]));
    assert!(!valid_shape(&[isize::MAX as usize, 0, 2]));
    assert!(!valid_shape(&[usize::MAX, usize::MAX]));
}

#[test]
fn lists_that_are_no_permutations_are_found() {
    assert!(can_permute(&[2, 0, 1], 3));
    assert!(can_permute(&[2, 1], 3));
    assert!(can_permute(&[], 1));
    assert!(!can_permute(&[], 2));
    assert!(!can_permute(&[0, 1], 3));
    assert!(!can_permute(&[0, 0, 1], 3));
    assert!(!can_permute(&[0, 3, 1], 3));
    assert!(!can_permute(&[0, 1, 2], 2));
    let mut state = backend(3, [2, 2, 2, 2], 2);
    assert_eq!(state.permute_states(&[2, 1]).0, vec![2, 1, 0]);
}

#[test]
fn volumes_that_overflow_are_found() {
    let volumes = |a: i32, b: i32| {
        let mut v = vec![0; 2 * 2 * 2 * 2 * 4];
        v[0] = a;
        v[8] = b;
        IntArray::from_shape_vec(&[1, 2, 2, 2, 2, 4], v).unwrap()
    };
    assert!(DualState::volumes_fit(&volumes(i32::MAX, 0)));
    assert!(DualState::volumes_fit(&volumes(i32::MAX - 1, -1)));
    assert!(!DualState::volumes_fit(&volumes(i32::MAX, -1)));
    assert!(!DualState::volumes_fit(&volumes(i32::MIN, 0)));
}

#[test]
fn flux_that_overflows_is_found() {
    let state = backend(1, [2, 2, 2, 2], 2);
    let plaquettes = |a: i32, b: i32| {
        let mut v = vec![0; 2 * 2 * 2 * 2 * 6];
        v[0] = a;
        v[1] = b;
        IntArray::from_shape_vec(&[1, 2, 2, 2, 2, 6], v).unwrap()
    };
    assert!(state.flux_fits(&plaquettes(i32::MAX, 0)));
    assert!(state.flux_fits(&plaquettes(i32::MAX - 1, 1)));
    assert!(!state.flux_fits(&plaquettes(i32::MAX, 1)));
    assert!(!state.flux_fits(&plaquettes(i32::MIN, 0)));
}

#[test]
fn tables_that_are_too_large_are_found() {
    assert!(backend(2, [4, 4, 4, 4], 3).can_count_plaquettes());
    assert!(backend(2, [4, 4, 4, 4], 3).can_count_edges());
    assert!(!backend(2, [4, 4, 4, 4], 0).can_count_plaquettes());
    assert!(!backend(2, [4, 4, 4, 4], 0).can_count_edges());
    assert!(!backend(1, [4, 4, 4, 4], usize::MAX / 4).can_count_plaquettes());
    assert!(!backend(1, [4, 4, 4, 4], usize::MAX / 100).can_count_edges());
    let pairs = PlaquettePairData { max_abs_value: 32767, max_distance: 4 };
    assert!(pairs.can_hold(2));
    assert!(!pairs.can_hold(usize::MAX / 8));
    assert!(!PlaquettePairData { max_abs_value: 32768, max_distance: 4 }.can_hold(2));
}

#[test]
fn values_without_a_bin_are_found() {
    let state = backend(1, [2, 2, 2, 2], 3);
    let array = |m: usize, v: i32| {
        let mut values = vec![0; 16 * m];
        values[5] = v;
        IntArray::from_shape_vec(&[1, 2, 2, 2, 2, m], values).unwrap()
    };
    for v in [-2, 0, 2] {
        assert!(state.can_count_plaquettes_on_host(&array(6, v)));
    }
    for v in [-3, 3, i32::MIN, i32::MAX] {
        assert!(!state.can_count_plaquettes_on_host(&array(6, v)));
    }
    for v in [-12, 0, 12] {
        assert!(state.can_count_edges_on_host(&array(4, v)));
    }
    for v in [-13, 13, i32::MIN, i32::MAX] {
        assert!(!state.can_count_edges_on_host(&array(4, v)));
    }
    let none = backend(1, [2, 2, 2, 2], 0);
    assert!(!none.can_count_plaquettes_on_host(&array(6, 0)));
    assert!(!none.can_count_edges_on_host(&array(4, 0)));
    let wide = backend(1, [2, 2, 2, 2], 1 << 30);
    assert!(wide.can_count_plaquettes_on_host(&array(6, (1 << 30) - 1)));
    assert!(!wide.can_count_plaquettes_on_host(&array(6, 1 << 30)));
}

#[test]
fn volumes_and_plaquettes_add_up() {
    let volumes = |f: fn(usize) -> i32| {
        let values = (0..2 * 2 * 4 * 2 * 4 * 4).map(f).collect();
        IntArray::from_shape_vec(&[2, 2, 4, 2, 4, 4], values).unwrap()
    };
    let first = DualState::new_volumes(volumes(|i| (i % 7) as i32));
    let second = DualState::new_volumes(volumes(|i| (i * i % 11) as i32 - 5));
    let both =
        DualState::new_volumes(volumes(|i| (i % 7) as i32 + (i * i % 11) as i32 - 5));
    let (a, b) = (first.get_plaquettes().as_slice(), second.get_plaquettes().as_slice());
    let sum: Vec<i32> = a.iter().zip(b).map(|(x, y)| x + y).collect();
    assert_eq!(both.get_plaquettes().as_slice(), sum.as_slice());
    assert!(sum.iter().any(|x| *x != 0));
    let row = sum.len() / 2;
    for r in 0..2 {
        for p in 0..6 {
            let plane = sum[r * row..(r + 1) * row].iter().skip(p).step_by(6);
            assert_eq!(plane.sum::<i32>(), 0);
        }
    }
}

#[test]
fn states_that_are_too_large_are_found() {
    let bounds = SiteIndex::new(2, 2, 2, 2);
    let state = |replicas: usize| {
        let values = vec![0; replicas * 96];
        let a = IntArray::from_shape_vec(&[replicas, 2, 2, 2, 2, 6], values).unwrap();
        Some(DualState::new_plaquettes(a))
    };
    assert!(CudaBackend::can_set_up(2, bounds, &None));
    assert!(CudaBackend::can_set_up(2, bounds, &state(1)));
    assert!(CudaBackend::can_set_up(2, bounds, &state(2)));
    assert!(!CudaBackend::can_set_up(2, bounds, &state(3)));
    assert!(!CudaBackend::can_set_up(usize::MAX / 2, bounds, &None));
    assert!(CudaBackend::can_set_up(0, bounds, &state(3)));
    assert!(CudaBackend::can_set_up(2, SiteIndex::new(3, 2, 2, 2), &state(3)));
}
