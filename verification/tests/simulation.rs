//! The backend with a device that is imitated on the host.
//!
//! The imitation keeps the buffers, and computes what the kernels that measure the state
//! compute. Kernels that update the state leave it as it is.

use gaugemc::arrays::{CountArray, IntArray};
use gaugemc::backend::CudaBackend;
use gaugemc::device::{Buffer, DeviceOp, HostData, Kernel, KernelArg, Launch};
use gaugemc::dual_state::DualState;
use gaugemc::error::CudaError;
use gaugemc::lattice::{Dimension, NDDualGraph, SiteIndex};
use ndarray_rand::rand::{thread_rng, Rng};
use std::collections::HashMap;

#[derive(Clone, Debug, PartialEq)]
enum Memory {
    Ints(Vec<i32>),
    Counts(Vec<u32>),
    Floats(Vec<f32>),
}

struct Device {
    memory: HashMap<Buffer, Memory>,
    given: HashMap<Buffer, Vec<f32>>,
    seed: Option<u64>,
    launches: Vec<Kernel>,
}

fn zeros(buffer: Buffer, len: usize) -> Memory {
    match buffer {
        Buffer::State | Buffer::ScratchI32 | Buffer::CallerEdges | Buffer::CallerPlaquettes => {
            Memory::Ints(vec![0; len])
        }
        Buffer::PotentialRedirect
        | Buffer::EdgePotentialRedirect
        | Buffer::PairCounts
        | Buffer::AspectRatios
        | Buffer::Increments
        | Buffer::ScratchU32 => Memory::Counts(vec![0; len]),
        _ => Memory::Floats(vec![0.0; len]),
    }
}

fn place(b: [usize; 4], r: usize, s: SiteIndex, m: usize, k: usize) -> usize {
    ((((r * b[0] + s.t) * b[1] + s.x) * b[2] + s.y) * b[3] + s.z) * m + k
}

fn sites(b: [usize; 4]) -> Vec<SiteIndex> {
    let mut all = Vec::new();
    for t in 0..b[0] {
        for x in 0..b[1] {
            for y in 0..b[2] {
                for z in 0..b[3] {
                    all.push(SiteIndex::new(t, x, y, z));
                }
            }
        }
    }
    all
}

const DIMENSIONS: [Dimension; 4] = [Dimension::T, Dimension::X, Dimension::Y, Dimension::Z];

fn flux(plaquettes: &[i32], b: [usize; 4], r: usize, s: SiteIndex, d: Dimension) -> i32 {
    let bounds = SiteIndex::new(b[0], b[1], b[2], b[3]);
    let (along, against) = NDDualGraph::plaquettes_next_to_edge(&s, d, &bounds);
    let value = |v: &(SiteIndex, usize)| plaquettes[place(b, r, v.0, 6, v.1)];
    along.iter().map(value).sum::<i32>() - against.iter().map(value).sum::<i32>()
}

fn flux_at_site(plaquettes: &[i32], b: [usize; 4], r: usize, s: SiteIndex, d: Dimension) -> i32 {
    let lower = s.lower(d, &SiteIndex::new(b[0], b[1], b[2], b[3]));
    flux(plaquettes, b, r, s, d).abs() + flux(plaquettes, b, r, lower, d).abs()
}

impl Device {
    fn new(vn: &[f32], edge_vn: &[f32], chemical_potential: Option<&[f32]>) -> Device {
        let mut given = HashMap::new();
        given.insert(Buffer::Potential, vn.to_vec());
        given.insert(Buffer::EdgePotential, edge_vn.to_vec());
        if let Some(mu) = chemical_potential {
            given.insert(Buffer::WindingChemicalPotential, mu.to_vec());
        }
        Device { memory: HashMap::new(), given, seed: None, launches: Vec::new() }
    }

    fn ints(&self, buffer: Buffer) -> Vec<i32> {
        match &self.memory[&buffer] {
            Memory::Ints(v) => v.clone(),
            other => panic!("{:?} holds {:?}", buffer, other),
        }
    }

    fn counts(&self, buffer: Buffer) -> Vec<u32> {
        match &self.memory[&buffer] {
            Memory::Counts(v) => v.clone(),
            other => panic!("{:?} holds {:?}", buffer, other),
        }
    }

    fn floats(&self, buffer: Buffer) -> Vec<f32> {
        match &self.memory[&buffer] {
            Memory::Floats(v) => v.clone(),
            other => panic!("{:?} holds {:?}", buffer, other),
        }
    }

    fn perform(&mut self, ops: Vec<DeviceOp>) -> Option<Memory> {
        let mut read = None;
        for op in ops {
            match op {
                DeviceOp::AllocZeros { buffer, len } => {
                    self.memory.insert(buffer, zeros(buffer, len));
                }
                DeviceOp::Upload { buffer, data } => {
                    let given = self.given.get(&buffer).cloned();
                    let memory = self.memory.get_mut(&buffer).unwrap();
                    match (memory, data) {
                        (Memory::Ints(m), HostData::I32(v)) => m[..v.len()].copy_from_slice(&v),
                        (Memory::Counts(m), HostData::U32(v)) => m[..v.len()].copy_from_slice(&v),
                        (Memory::Floats(m), HostData::Zeros(n)) => m[..n].fill(0.0),
                        (Memory::Floats(m), HostData::FromCaller) => {
                            let v = given.unwrap();
                            m[..v.len()].copy_from_slice(&v);
                        }
                        (m, d) => panic!("{:?} cannot take {:?}", m, d),
                    }
                }
                DeviceOp::Clear { buffer } => match self.memory.get_mut(&buffer).unwrap() {
                    Memory::Ints(m) => m.fill(0),
                    Memory::Counts(m) => m.fill(0),
                    Memory::Floats(m) => m.fill(0.0),
                },
                DeviceOp::SeedRng { seed } => self.seed = Some(seed),
                DeviceOp::FillUniform { buffer } => {
                    assert!(self.seed.is_some());
                    let len = self.floats(buffer).len();
                    self.memory.insert(buffer, Memory::Floats(vec![0.5; len]));
                }
                DeviceOp::Run(launch) => self.run(launch),
                DeviceOp::Keep { from, to } => {
                    let kept = self.memory.remove(&from).unwrap();
                    self.memory.insert(to, kept);
                }
                DeviceOp::Download { buffer, len } => {
                    read = Some(match &self.memory[&buffer] {
                        Memory::Ints(m) => Memory::Ints(m[..len].to_vec()),
                        Memory::Counts(m) => Memory::Counts(m[..len].to_vec()),
                        Memory::Floats(m) => Memory::Floats(m[..len].to_vec()),
                    });
                }
                DeviceOp::Synchronize => {}
            }
        }
        read
    }

    fn run(&mut self, launch: Launch) {
        self.launches.push(launch.kernel);
        let mut buffers = Vec::new();
        let mut sizes = Vec::new();
        let mut shorts = Vec::new();
        let mut words = Vec::new();
        for arg in &launch.args {
            match arg {
                KernelArg::Read(b) | KernelArg::Write(b) => {
                    assert!(self.memory.contains_key(b), "{:?} was not allocated", b);
                    buffers.push(*b);
                }
                KernelArg::Size(n) => sizes.push(*n),
                KernelArg::Short(k) => shorts.push(*k),
                KernelArg::Word(k) => words.push(*k),
                KernelArg::Flag(_) => {}
            }
        }
        let threads = (launch.config.grid_dim.0 * launch.config.block_dim.0) as usize;
        let last = sizes.len().saturating_sub(5);
        let tail = &sizes[last..];
        match launch.kernel {
            Kernel::CalculateEdgeSums => {
                let (n, b) = (tail[0], [tail[1], tail[2], tail[3], tail[4]]);
                assert!(threads >= n * b[0] * b[1] * b[2] * b[3] * 4);
                let state = self.ints(buffers[0]);
                let mut edges = self.ints(buffers[1]);
                for r in 0..n {
                    for s in sites(b) {
                        for (k, d) in DIMENSIONS.iter().enumerate() {
                            edges[place(b, r, s, 4, k)] = flux(&state, b, r, s, *d);
                        }
                    }
                }
                self.memory.insert(buffers[1], Memory::Ints(edges));
            }
            Kernel::CalculateMatterFlowThroughCoords => {
                let (n, b) = (tail[0], [tail[1], tail[2], tail[3], tail[4]]);
                let state = self.ints(buffers[0]);
                let mut flow = self.ints(buffers[1]);
                for r in 0..n {
                    for s in sites(b) {
                        let ends: i32 =
                            DIMENSIONS.iter().map(|d| flux_at_site(&state, b, r, s, *d)).sum();
                        flow[place(b, r, s, 1, 0)] = ends / 2;
                    }
                }
                self.memory.insert(buffers[1], Memory::Ints(flow));
            }
            Kernel::CalculateMatterCornersForPlaquettes => {
                let (n, b) = (tail[0], [tail[1], tail[2], tail[3], tail[4]]);
                assert_eq!(shorts, vec![0]);
                let state = self.ints(buffers[0]);
                let mut corners = self.ints(buffers[1]);
                for r in 0..n {
                    for s in sites(b) {
                        for k in 0..4 {
                            let corner = SiteIndex::new(
                                (s.t + k / 2) % b[0],
                                (s.x + k % 2) % b[1],
                                s.y,
                                s.z,
                            );
                            let along_t = flux_at_site(&state, b, r, corner, Dimension::T);
                            let along_x = flux_at_site(&state, b, r, corner, Dimension::X);
                            corners[place(b, r, s, 4, k)] = along_t.min(along_x);
                        }
                    }
                }
                self.memory.insert(buffers[1], Memory::Ints(corners));
            }
            Kernel::PartialSumEnergies => {
                let (n, b) = (tail[0], [tail[1], tail[2], tail[3], tail[4]]);
                let potential_size = sizes[0];
                let state = self.ints(buffers[0]);
                let vn = self.floats(buffers[2]);
                let mu = self.floats(buffers[3]);
                let redirect = self.counts(buffers[4]);
                let mut sums = vec![0.0f32; n * b[0] * b[1] * b[2]];
                for r in 0..n {
                    let potential = redirect[r] as usize;
                    for s in sites(b) {
                        let i = ((r * b[0] + s.t) * b[1] + s.x) * b[2] + s.y;
                        for p in 0..6 {
                            let v = state[place(b, r, s, 6, p)];
                            let size = v.unsigned_abs() as usize;
                            sums[i] += vn[potential * potential_size + size];
                            sums[i] -= mu[potential] * v as f32;
                        }
                    }
                }
                assert_eq!(self.floats(buffers[1]).len(), sums.len());
                self.memory.insert(buffers[1], Memory::Floats(sums));
            }
            Kernel::SumBuffer => {
                let mut sums = self.floats(buffers[0]);
                for i in 0..sizes[0] {
                    sums[i] = sums[i * sizes[1]..(i + 1) * sizes[1]].iter().sum();
                }
                self.memory.insert(buffers[0], Memory::Floats(sums));
            }
            Kernel::SumIntBuffer => {
                let mut sums = self.counts(buffers[0]);
                assert_eq!(sums.len(), sizes[0] * sizes[1]);
                for i in 0..sizes[0] {
                    sums[i] = sums[i * sizes[1]..(i + 1) * sizes[1]].iter().sum();
                }
                self.memory.insert(buffers[0], Memory::Counts(sums));
            }
            Kernel::PartialCountPlaquettes | Kernel::PartialCountEdges => {
                let (n, b) = (tail[0], [tail[1], tail[2], tail[3], tail[4]]);
                let state = self.ints(buffers[0]);
                let mut counts = self.counts(buffers[1]);
                let steps = b[0] * b[1];
                let bins = counts.len() / (n * steps);
                let plaquettes = launch.kernel == Kernel::PartialCountPlaquettes;
                let center = if plaquettes { sizes[0] - 1 } else { sizes[0] };
                for r in 0..n {
                    for s in sites(b) {
                        let values: Vec<i32> = if plaquettes {
                            (0..6).map(|p| state[place(b, r, s, 6, p)]).collect()
                        } else {
                            DIMENSIONS.iter().map(|d| flux(&state, b, r, s, *d)).collect()
                        };
                        for v in values {
                            let bin = (v + center as i32) as usize;
                            counts[(r * bins + bin) * steps + s.t * b[1] + s.x] += 1;
                        }
                    }
                }
                self.memory.insert(buffers[1], Memory::Counts(counts));
            }
            Kernel::SumWinding => {
                let (n, b) = (tail[0], [tail[1], tail[2], tail[3], tail[4]]);
                let state = self.ints(buffers[0]);
                let planes = [(0, 1), (0, 2), (0, 3), (1, 2), (1, 3), (2, 3)];
                let mut windings = vec![0; n * 6];
                for r in 0..n {
                    for (p, (i, j)) in planes.iter().enumerate() {
                        let sum: i32 = sites(b).iter().map(|s| state[place(b, r, *s, 6, p)]).sum();
                        windings[r * 6 + p] = sum / (b[*i] * b[*j]) as i32;
                    }
                }
                self.memory.insert(buffers[1], Memory::Ints(windings));
            }
            Kernel::InitializeWilsonLoopsForProbs => {
                let (n, b) = (tail[0], [tail[1], tail[2], tail[3], tail[4]]);
                assert_eq!(shorts, vec![0]);
                let ratios = self.counts(buffers[1]);
                if let Memory::Ints(state) = self.memory.get_mut(&buffers[0]).unwrap() {
                    for r in 0..n {
                        for t in 0..ratios[2 * r] as usize {
                            for x in 0..ratios[2 * r + 1] as usize {
                                state[place(b, r, SiteIndex::new(t, x, 0, 0), 6, 0)] = 1;
                            }
                        }
                    }
                }
            }
            Kernel::InitializeWilsonLoopsForProbsIncrementalSquare => {
                let (n, b) = (tail[0], [tail[1], tail[2], tail[3], tail[4]]);
                assert_eq!(shorts, vec![0]);
                let increments = self.counts(buffers[1]);
                if let Memory::Ints(state) = self.memory.get_mut(&buffers[0]).unwrap() {
                    for r in 0..n {
                        for k in 0..increments[r] as usize {
                            let s = SiteIndex::new((k / b[1]) % b[0], k % b[1], 0, 0);
                            state[place(b, r, s, 6, 0)] += 1;
                        }
                    }
                }
            }
            Kernel::CountPlaquettePairsWithIncreasingZ => {
                assert_eq!(words, vec![4, 1, 0]);
                assert_eq!(self.counts(Buffer::PairCounts).len(), tail[0] * 4 * 6 * 9);
            }
            Kernel::WilsonLoopProbs | Kernel::WilsonLoopProbsIncrementalSquare => {
                let mut probs = self.floats(Buffer::Probs);
                for (i, p) in probs.iter_mut().enumerate() {
                    *p += 1.0 / (i + 1) as f32;
                }
                self.memory.insert(Buffer::Probs, Memory::Floats(probs));
            }
            Kernel::SingleLocalUpdatePlaquettes
            | Kernel::ChargeUpdate
            | Kernel::GlobalUpdateSweep
            | Kernel::PlaneShiftUpdate
            | Kernel::UpdateMatterLoops => {
                assert!(self.floats(Buffer::Rng).iter().all(|x| *x == 0.5));
            }
            other => panic!("{:?} is not imitated", other),
        }
    }
}

struct Simulation {
    backend: CudaBackend,
    device: Device,
}

fn make_simple_potentials(nreplicas: usize, npots: usize) -> (usize, usize, Vec<f32>) {
    make_custom_simple_potentials(nreplicas, npots, |_, p| 0.5 * p.pow(2) as f32)
}

fn make_custom_simple_potentials<F>(
    nreplicas: usize,
    npots: usize,
    f: F,
) -> (usize, usize, Vec<f32>)
where
    F: Fn(usize, usize) -> f32,
{
    let mut pots = Vec::new();
    for r in 0..nreplicas {
        for p in 0..npots {
            pots.push(f(r, p));
        }
    }
    (nreplicas, npots, pots)
}

type Potentials = (usize, usize, Vec<f32>);

impl Simulation {
    fn new(
        bounds: SiteIndex,
        vn: Potentials,
        edge_vn: Potentials,
        state: Option<DualState>,
        seed: Option<u64>,
        chemical_potential: Option<Vec<f32>>,
    ) -> Result<Simulation, CudaError> {
        let mut device = Device::new(&vn.2, &edge_vn.2, chemical_potential.as_deref());
        let (backend, ops) = CudaBackend::new(
            bounds,
            (vn.0, vn.1),
            (edge_vn.0, edge_vn.1),
            state,
            seed,
            chemical_potential.is_some(),
        )?;
        device.perform(ops);
        Ok(Simulation { backend, device })
    }

    fn read_ints(&mut self, ops: Vec<DeviceOp>) -> Vec<i32> {
        match self.device.perform(ops) {
            Some(Memory::Ints(v)) => v,
            other => panic!("read {:?}", other),
        }
    }

    fn read_counts(&mut self, ops: Vec<DeviceOp>) -> Vec<u32> {
        match self.device.perform(ops) {
            Some(Memory::Counts(v)) => v,
            other => panic!("read {:?}", other),
        }
    }

    fn read_floats(&mut self, ops: Vec<DeviceOp>) -> Vec<f32> {
        match self.device.perform(ops) {
            Some(Memory::Floats(v)) => v,
            other => panic!("read {:?}", other),
        }
    }

    fn get_plaquettes(&mut self) -> IntArray {
        let ops = self.backend.fetch_plaquettes();
        let output = self.read_ints(ops);
        self.backend.get_plaquettes(output)
    }

    fn get_edge_violations(&mut self) -> IntArray {
        let ops = self.backend.fetch_edge_violations();
        let output = self.read_ints(ops);
        self.backend.get_edge_violations(output)
    }

    fn get_winding_per_replica(&mut self) -> IntArray {
        let ops = self.backend.fetch_winding_per_replica();
        let output = self.read_ints(ops);
        self.backend.get_winding_per_replica(output)
    }

    fn get_plaquette_counts(&mut self) -> CountArray {
        let ops = self.backend.fetch_plaquette_counts();
        let output = self.read_counts(ops);
        self.backend.get_plaquette_counts(output)
    }

    fn get_edge_counts(&mut self) -> CountArray {
        let ops = self.backend.fetch_edge_counts();
        let output = self.read_counts(ops);
        self.backend.get_edge_counts(output)
    }

    fn get_edge_counts_cpu(&mut self) -> CountArray {
        let edges = self.get_edge_violations();
        self.backend.get_edge_counts_cpu(&edges)
    }

    fn get_action_per_replica(&mut self) -> Vec<f32> {
        let ops = self.backend.fetch_action_per_replica();
        let output = self.read_floats(ops);
        self.backend.get_action_per_replica(output)
    }

    fn violations(&mut self) -> usize {
        let state = self.get_plaquettes();
        self.backend.get_edges_with_violations(&state).len()
    }

    fn permute_states(&mut self, permutation: &[usize]) {
        let (new_redirect, ops) = self.backend.permute_states(permutation);
        self.device.perform(ops);
        self.backend.states_permuted(new_redirect);
    }

    fn parallel_tempering_step_with_rand(
        &mut self,
        swaps: &[(usize, usize)],
        random_values: &[f32],
    ) {
        let base = self.get_action_per_replica();
        let perm = self.backend.parallel_tempering_step(swaps);
        self.permute_states(&perm);
        let swapped = self.get_action_per_replica();
        let accepted: Vec<bool> = swaps
            .iter()
            .zip(random_values)
            .map(|((a, b), rng_value)| {
                let base_energy = base[*a] + base[*b];
                let swap_energy = swapped[*a] + swapped[*b];
                let weight = if swap_energy < base_energy {
                    1.0 + f32::EPSILON
                } else {
                    (-(swap_energy - base_energy)).exp()
                };
                weight >= *rng_value
            })
            .collect();
        let undo = self.backend.settle_swaps(perm, swaps, &accepted);
        self.permute_states(&undo);
    }

    fn initialize_squares(&mut self, increments: Vec<usize>) {
        let (data, ops) = self
            .backend
            .initialize_wilson_loops_for_probs_incremental_square(increments, 0)
            .unwrap();
        self.device.perform(ops);
        self.backend.wilson_loops_ready(data);
    }

    fn initialize_ratios(&mut self, aspect_ratios: Vec<(usize, usize)>) {
        let (data, ops) =
            self.backend.initialize_wilson_loops_per_replica(aspect_ratios, 0).unwrap();
        self.device.perform(ops);
        self.backend.wilson_loops_ready(data);
    }

    fn calculate_probs(&mut self) {
        let (data, ops) = self.backend.calculate_wilson_loop_transition_probs().unwrap();
        self.device.perform(ops);
        self.backend.wilson_loops_ready(data);
    }

    fn get_probs(&mut self) -> ((usize, usize), Vec<f32>) {
        let shape = self.backend.get_wilson_loop_transition_probs().unwrap();
        let (data, ops) = self.backend.get_wilson_loop_transition_probs_into().unwrap();
        let mut output = self.read_floats(ops);
        if let Some(times_run) = data.divisor() {
            for x in output.iter_mut() {
                *x /= times_run as f32;
            }
        }
        self.backend.wilson_loops_ready(data);
        (shape, output)
    }

    fn loop_sum(&mut self, r: usize) -> i32 {
        slice_sum(&self.get_plaquettes(), r)
    }
}

fn slice_sum(plaquettes: &IntArray, r: usize) -> i32 {
    let shape = plaquettes.shape();
    let mut sum = 0;
    for t in 0..shape[1] {
        for x in 0..shape[2] {
            sum += plaquettes.get(&[r, t, x, 0, 0, 0]).unwrap();
        }
    }
    sum
}

fn array(dims: [usize; 6], values: &[([usize; 6], i32)]) -> IntArray {
    let mut v = vec![0; dims.iter().product()];
    let b = [dims[1], dims[2], dims[3], dims[4]];
    for (index, value) in values {
        let s = SiteIndex::new(index[1], index[2], index[3], index[4]);
        v[place(b, index[0], s, dims[5], index[5])] = *value;
    }
    IntArray::from_shape_vec(&dims, v).unwrap()
}

fn nonzero(a: &IntArray) -> usize {
    a.as_slice().iter().filter(|x| **x != 0).count()
}

fn constructed(r: usize, d: usize, values: &[([usize; 6], i32)]) -> Simulation {
    Simulation::new(
        SiteIndex::new(d, d, d, d),
        make_simple_potentials(r, 32),
        make_simple_potentials(r, 32),
        Some(DualState::new_plaquettes(array([r, d, d, d, d, 6], values))),
        Some(31415),
        None,
    )
    .unwrap()
}

#[test]
fn test_construction() {
    let state = Simulation::new(
        SiteIndex::new(6, 8, 10, 12),
        make_simple_potentials(4, 32),
        make_simple_potentials(4, 32),
        None,
        Some(31415),
        None,
    )
    .unwrap();
    assert_eq!(state.device.seed, Some(31415));
}

#[test]
fn test_simple_launch() {
    let mut state = Simulation::new(
        SiteIndex::new(4, 4, 4, 4),
        make_simple_potentials(1, 2),
        make_simple_potentials(1, 2),
        None,
        Some(31415),
        None,
    )
    .unwrap();
    let ops = state.backend.run_single_local_update_single(0, false);
    state.device.perform(ops);
    assert_eq!(state.device.launches, vec![Kernel::SingleLocalUpdatePlaquettes]);
}

#[test]
fn test_repeated_launch() {
    let mut state = Simulation::new(
        SiteIndex::new(8, 8, 8, 8),
        make_custom_simple_potentials(6, 32, |r, n| 0.25 * (r as f32 + 1.0) * (n.pow(2) as f32)),
        make_custom_simple_potentials(6, 32, |r, n| 0.25 * (r as f32 + 1.0) * (n.pow(2) as f32)),
        None,
        Some(31415),
        None,
    )
    .unwrap();
    for _ in 0..100 {
        let ops = state.backend.run_local_update_sweep();
        state.device.perform(ops);
    }
    assert_eq!(state.device.launches.len(), 800);
}

#[test]
fn test_get_plaquettes() {
    let mut state = Simulation::new(
        SiteIndex::new(4, 4, 4, 4),
        make_simple_potentials(1, 2),
        make_simple_potentials(1, 2),
        None,
        Some(31415),
        None,
    )
    .unwrap();
    let plaquettes = state.get_plaquettes();
    assert!(plaquettes.as_slice().iter().all(|x| *x == 0));
    assert_eq!(plaquettes.shape(), vec![1, 4, 4, 4, 4, 6]);
}

fn with_volumes(
    r: usize,
    d: usize,
    npots: usize,
    volumes: &[([usize; 6], i32)],
    seed: Option<u64>,
) -> Simulation {
    Simulation::new(
        SiteIndex::new(d, d, d, d),
        make_simple_potentials(r, npots),
        make_simple_potentials(r, npots),
        Some(DualState::new_volumes(array([r, d, d, d, d, 4], volumes))),
        seed,
        None,
    )
    .unwrap()
}

#[test]
fn test_get_plaquettes_single_inc() {
    let mut state = with_volumes(1, 6, 2, &[([0, 0, 0, 0, 0, 0], 1)], Some(31415));
    let plaquettes = state.get_plaquettes();
    assert_eq!(nonzero(&plaquettes), 6);
    assert_eq!(state.violations(), 0);
}

#[test]
fn test_get_plaquettes_single_inc_compare_gpu() {
    let mut state = with_volumes(1, 6, 2, &[([0, 0, 0, 0, 0, 0], 1)], Some(31415));
    let nonzero_edges = nonzero(&state.get_edge_violations());
    let violations = state.violations();
    assert_eq!(violations, nonzero_edges);
    assert_eq!(violations, 0);
}

#[test]
fn test_get_plaquettes_single_inc_sweep() {
    for i in 0..4 {
        let mut state = with_volumes(1, 6, 2, &[([0, 0, 0, 0, 0, i], 1)], None);
        let plaquettes = state.get_plaquettes();
        assert_eq!(nonzero(&plaquettes), 6);
        assert_eq!(state.violations(), 0);
    }
}

#[test]
fn test_get_plaquettes_single_inc_random_fill() {
    let (r, t, x, y, z) = (16, 6, 6, 6, 6);
    for _ in 0..10 {
        let len = r * t * x * y * z * 4;
        let values = (0..len).map(|_| thread_rng().gen_range(-32..32)).collect();
        let volumes = IntArray::from_shape_vec(&[r, t, x, y, z, 4], values).unwrap();
        let mut state = Simulation::new(
            SiteIndex::new(t, x, y, z),
            make_simple_potentials(r, 2),
            make_simple_potentials(r, 2),
            Some(DualState::new_volumes(volumes)),
            None,
            None,
        )
        .unwrap();
        assert_eq!(nonzero(&state.get_edge_violations()), 0);
    }
}

#[test]
fn test_get_edges_constructed() {
    let mut state = constructed(1, 4, &[([0, 0, 0, 0, 0, 0], 1)]);
    assert_eq!(nonzero(&state.get_edge_violations()), 4);
    assert_eq!(state.violations(), 4);
}

#[test]
fn test_get_edges_constructed_pair() {
    let mut state = constructed(1, 4, &[([0, 0, 0, 0, 0, 0], 1), ([0, 1, 0, 0, 0, 0], 1)]);
    assert_eq!(nonzero(&state.get_edge_violations()), 6);
    assert_eq!(state.violations(), 6);
}

#[test]
fn test_get_edges_constructed_half_cube() {
    let mut state = constructed(
        1,
        4,
        &[
            ([0, 0, 0, 0, 0, 0], 1),
            ([0, 0, 0, 0, 0, 1], -1),
            ([0, 0, 0, 0, 0, 3], 1),
        ],
    );
    assert_eq!(nonzero(&state.get_edge_violations()), 6);
    assert_eq!(state.violations(), 6);
}

#[test]
fn test_get_edges_constructed_full_cube_txy() {
    let mut state = constructed(
        1,
        4,
        &[
            ([0, 0, 0, 0, 0, 0], 1),
            ([0, 0, 0, 1, 0, 0], -1),
            ([0, 0, 0, 0, 0, 1], -1),
            ([0, 0, 1, 0, 0, 1], 1),
            ([0, 0, 0, 0, 0, 3], 1),
            ([0, 1, 0, 0, 0, 3], -1),
        ],
    );
    assert_eq!(nonzero(&state.get_edge_violations()), 0);
    assert_eq!(state.violations(), 0);
}

#[test]
fn test_get_edges_constructed_full_cube_txy_failed() {
    let mut state = constructed(
        1,
        4,
        &[
            ([0, 0, 0, 0, 0, 0], 1),
            ([0, 0, 0, 1, 0, 0], -1),
            ([0, 0, 0, 0, 0, 1], -1),
            ([0, 0, 1, 0, 0, 1], 1),
            ([0, 0, 0, 0, 0, 3], 1),
            ([0, 1, 0, 0, 0, 3], 1),
        ],
    );
    assert_eq!(nonzero(&state.get_edge_violations()), 4);
    assert_eq!(state.violations(), 4);
}

#[test]
fn test_get_edges_constructed_full_cube_xyz() {
    let mut state = constructed(
        1,
        4,
        &[
            ([0, 0, 0, 0, 0, 3], 1),
            ([0, 0, 0, 0, 1, 3], -1),
            ([0, 0, 0, 0, 0, 4], -1),
            ([0, 0, 0, 1, 0, 4], 1),
            ([0, 0, 0, 0, 0, 5], 1),
            ([0, 0, 1, 0, 0, 5], -1),
        ],
    );
    assert_eq!(nonzero(&state.get_edge_violations()), 0);
    assert_eq!(state.violations(), 0);
}

#[test]
fn test_get_edges_constructed_full_cube_txz() {
    let mut state = constructed(
        1,
        4,
        &[
            ([0, 0, 0, 0, 0, 0], 1),
            ([0, 0, 0, 0, 1, 0], -1),
            ([0, 0, 0, 0, 0, 2], -1),
            ([0, 0, 1, 0, 0, 2], 1),
            ([0, 0, 0, 0, 0, 4], 1),
            ([0, 1, 0, 0, 0, 4], -1),
        ],
    );
    assert_eq!(nonzero(&state.get_edge_violations()), 0);
    assert_eq!(state.violations(), 0);
}

#[test]
fn test_get_edges_single_inc() {
    let mut state = with_volumes(1, 6, 32, &[([0, 0, 0, 0, 0, 0], 1)], Some(31415));
    let edges = state.get_edge_violations();
    assert!(edges.as_slice().iter().all(|x| *x == 0));
}

#[test]
fn test_get_plaquettes_double_inc() {
    let mut state = with_volumes(
        1,
        6,
        32,
        &[([0, 0, 0, 0, 0, 0], 1), ([0, 1, 0, 0, 0, 0], 1)],
        Some(31415),
    );
    let plaquettes = state.get_plaquettes();
    assert_eq!(nonzero(&plaquettes), 10);
    assert_eq!(state.violations(), 0);
    assert_eq!(nonzero(&state.get_edge_violations()), 0);
}

#[test]
fn test_get_edges_constructed_full_cube_txy_energy() {
    let (r, t, x, y, z) = (4, 8, 8, 8, 8);
    let mut values = Vec::new();
    for i in 0..r {
        values.push(([i, 0, 0, 0, 0, 0], 1));
        values.push(([i, 0, 0, 1, 0, 0], -1));
        values.push(([i, 0, 0, 0, 0, 1], -1));
        values.push(([i, 0, 1, 0, 0, 1], 1));
        values.push(([i, 0, 0, 0, 0, 3], 1));
        values.push(([i, 1, 0, 0, 0, 3], -1));
    }
    let mut state = Simulation::new(
        SiteIndex::new(t, x, y, z),
        make_custom_simple_potentials(r, 32, |r, np| ((r + 1) * np.pow(2)) as f32),
        make_custom_simple_potentials(r, 32, |r, np| ((r + 1) * np.pow(2)) as f32),
        Some(DualState::new_plaquettes(array([r, t, x, y, z, 6], &values))),
        Some(31415),
        None,
    )
    .unwrap();
    assert_eq!(nonzero(&state.get_edge_violations()), 0);
    assert_eq!(state.get_action_per_replica(), vec![6.0, 12.0, 18.0, 24.0]);
}

fn planes_by_replica(r: usize, d: usize) -> IntArray {
    let mut values = Vec::new();
    for rr in 0..r {
        for i in 0..rr {
            for t in 0..d {
                for x in 0..d {
                    values.push(([rr, t, x, i, i, 0], 1));
                }
            }
        }
    }
    array([r, d, d, d, d, 6], &values)
}

#[test]
fn test_winding_counts() {
    let (r, d) = (3, 8);
    let mut state = Simulation::new(
        SiteIndex::new(d, d, d, d),
        make_simple_potentials(r, 32),
        make_simple_potentials(r, 32),
        Some(DualState::new_plaquettes(planes_by_replica(r, d))),
        Some(31415),
        None,
    )
    .unwrap();
    let windings = state.get_winding_per_replica();
    assert_eq!(windings.shape(), vec![3, 6]);
    assert_eq!(
        windings.as_slice(),
        &[0, 0, 0, 0, 0, 0, 1, 0, 0, 0, 0, 0, 2, 0, 0, 0, 0, 0]
    );
}

#[test]
fn test_get_edges_single_inc_rotate() {
    let (r, d) = (5, 6);
    let mut state = with_volumes(r, d, 32, &[([0, 0, 0, 0, 0, 0], 1)], Some(31415));
    let perm = (1..r + 1).map(|x| x % r).collect::<Vec<_>>();
    for i in 0..2 * r {
        let correct_state =
            DualState::new_volumes(array([r, d, d, d, d, 4], &[([i % r, 0, 0, 0, 0, 0], 1)]));
        let check_plaquettes = state.get_plaquettes();
        assert_eq!(&check_plaquettes, correct_state.get_plaquettes());

        let mut energies_correct = vec![0.0; r];
        energies_correct[i % r] = 3.0;
        assert_eq!(state.get_action_per_replica(), energies_correct);

        state.permute_states(&perm);
    }
}

#[test]
fn test_get_edges_single_inc_rotate_swaps() {
    let mut state = with_volumes(5, 6, 32, &[([0, 0, 0, 0, 0, 0], 1)], Some(31415));
    assert_eq!(state.get_action_per_replica(), vec![3., 0., 0., 0., 0.]);
    state.permute_states(&[1, 0, 2, 3, 4]);
    assert_eq!(state.get_action_per_replica(), vec![0., 3., 0., 0., 0.]);
    state.permute_states(&[0, 2, 1, 3, 4]);
    assert_eq!(state.get_action_per_replica(), vec![0., 0., 3., 0., 0.]);
    state.permute_states(&[0, 1, 3, 2, 4]);
    assert_eq!(state.get_action_per_replica(), vec![0., 0., 0., 3., 0.]);
    state.permute_states(&[0, 1, 2, 4, 3]);
    assert_eq!(state.get_action_per_replica(), vec![0., 0., 0., 0., 3.]);
}

fn graded(r: usize, d: usize) -> Simulation {
    let values: Vec<([usize; 6], i32)> =
        (0..r).map(|rr| ([rr, 0, 0, 0, 0, 0], (rr + 1) as i32)).collect();
    Simulation::new(
        SiteIndex::new(d, d, d, d),
        make_custom_simple_potentials(r, 32, |r, n| ((r + 1) * n) as f32),
        make_custom_simple_potentials(r, 32, |r, n| ((r + 1) * n) as f32),
        Some(DualState::new_volumes(array([r, d, d, d, d, 4], &values))),
        Some(31415),
        None,
    )
    .unwrap()
}

#[test]
fn test_reverse_order() {
    let r = 5;
    let mut state = graded(r, 6);
    let expected: Vec<f32> = (0..r).map(|rr| (6 * (rr + 1) * (rr + 1)) as f32).collect();
    assert_eq!(state.get_action_per_replica(), expected);

    let mut perm = (0..r).collect::<Vec<_>>();
    perm.reverse();
    state.permute_states(&perm);
    let expected: Vec<f32> =
        (0..r).map(|rr| (6 * (rr + 1) * ((r + 1) - (rr + 1))) as f32).collect();
    assert_eq!(state.get_action_per_replica(), expected);
}

fn sums_by_replica(a: &IntArray, r: usize) -> Vec<i32> {
    let values = a.as_slice();
    let row = values.len() / r;
    (0..r)
        .map(|i| values[i * row..(i + 1) * row].iter().map(|y| y.abs()).sum::<i32>() / 6)
        .collect()
}

#[test]
fn test_tempering() {
    let r = 6;
    let mut state = graded(r, 8);
    let perms_a = (0..r / 2).map(|x| (2 * x, 2 * x + 1)).collect::<Vec<_>>();
    let perms_b = (0..(r - 1) / 2).map(|x| (2 * x + 1, 2 * (x + 1))).collect::<Vec<_>>();
    let rands = (0..r / 2).map(|_| 0.5).collect::<Vec<_>>();
    let mut against = (0..r as i32).map(|x| x + 1).collect::<Vec<_>>();
    against.reverse();
    for _ in 0..2 {
        for i in 0..r {
            let swaps = if i % 2 == 0 { &perms_a } else { &perms_b };
            state.parallel_tempering_step_with_rand(swaps, &rands);
        }
        let plaquettes = state.get_plaquettes();
        assert_eq!(sums_by_replica(&plaquettes, r), against);
    }
}

#[test]
fn test_winding_chemical_potential() {
    let (r, d) = (3, 8);
    let mut state = Simulation::new(
        SiteIndex::new(d, d, d, d),
        make_custom_simple_potentials(r, 4, |_, _| 0.0),
        make_custom_simple_potentials(r, 4, |_, _| 0.0),
        Some(DualState::new_plaquettes(planes_by_replica(r, d))),
        Some(31415),
        Some((0..r).map(|rr| (rr + 1) as f32).collect()),
    )
    .unwrap();
    let scaled = |energies: Vec<f32>| -> Vec<f32> {
        energies.iter().map(|e| -e / (d.pow(2) as f32)).collect()
    };
    assert_eq!(scaled(state.get_action_per_replica()), vec![0.0 * 1.0, 1.0 * 2.0, 2.0 * 3.0]);
    state.permute_states(&[2, 1, 0]);
    assert_eq!(scaled(state.get_action_per_replica()), vec![2.0 * 1.0, 1.0 * 2.0, 0.0 * 3.0]);
}

fn empty(r: usize, d: usize) -> Simulation {
    Simulation::new(
        SiteIndex::new(d, d, d, d),
        make_simple_potentials(r, 32),
        make_simple_potentials(r, 32),
        None,
        Some(31415),
        None,
    )
    .unwrap()
}

#[test]
fn test_get_flow_single_inc() {
    let mut state = constructed(1, 4, &[([0, 0, 0, 0, 0, 0], 1)]);
    let ops = state.backend.fetch_matter_flow_per_coordinate();
    let output = state.read_ints(ops);
    let coords = state.backend.get_matter_flow_per_coordinate(output);
    assert_eq!(coords.get(&[0, 0, 0, 0, 0]), Some(1));
    assert_eq!(coords.get(&[0, 1, 0, 0, 0]), Some(1));
    assert_eq!(coords.get(&[0, 0, 1, 0, 0]), Some(1));
    assert_eq!(coords.get(&[0, 1, 1, 0, 0]), Some(1));
}

#[test]
fn test_get_corner_flow_single_inc() {
    let mut state = constructed(1, 4, &[([0, 0, 0, 0, 0, 0], 1)]);
    let ops = state.backend.fetch_matter_corner_per_plaquette(0);
    let output = state.read_ints(ops);
    let coords = state.backend.get_matter_corner_per_plaquette(output);
    let sum = |t: usize, x: usize| -> i32 {
        (0..4).map(|k| coords.get(&[0, t, x, 0, 0, k]).unwrap()).sum()
    };
    assert_eq!(sum(0, 0), 4);
    assert_eq!(sum(1, 0), 2);
    assert_eq!(sum(0, 1), 2);
    assert_eq!(sum(1, 1), 1);
}

#[test]
fn the_list_of_violations_agrees_with_the_flux() {
    let mut values = Vec::new();
    for i in 0..40usize {
        values.push(([i % 3, i % 4, i * 7 % 4, i * 5 % 4, i / 4 % 4, i % 6], i as i32 % 5 - 2));
    }
    let mut state = constructed(3, 4, &values);
    let edges = state.get_edge_violations();
    let plaquettes = state.get_plaquettes();
    let list = state.backend.get_edges_with_violations(&plaquettes);
    assert_eq!(list.len(), nonzero(&edges));
    assert!(list.len() > 10);
    for (k, ((r, s, d), _)) in list.iter().enumerate() {
        let direction = DIMENSIONS.iter().position(|e| e == d).unwrap();
        assert_ne!(edges.get(&[*r, s.t, s.x, s.y, s.z, direction]), Some(0));
        assert!(list[..k].iter().all(|v| v.0 != (*r, *s, *d)));
    }
}

#[test]
fn initialize_wilson_loops() {
    let r = 4;
    let mut state = empty(r, 8);
    state.initialize_ratios((0..r).map(|x| (x, x)).collect());
    for rr in 0..r {
        assert_eq!(state.loop_sum(rr) as usize, rr.pow(2));
    }
}

#[test]
fn initialize_increment_squares_wilson_loops() {
    let r = 129;
    let mut state = empty(r, 8);
    state.initialize_squares((0..r).collect());
    let plaquettes = state.get_plaquettes();
    for rr in 0..r {
        assert_eq!(slice_sum(&plaquettes, rr) as usize, rr);
    }
}

#[test]
fn initialize_and_run_wilson_loops() {
    let (r, d) = (16, 32);
    let mut state = empty(r, d);
    state.initialize_ratios((0..r).map(|x| (x, x)).collect());
    let plaquettes = state.get_plaquettes();
    for rr in 0..r {
        assert_eq!(slice_sum(&plaquettes, rr) as usize, rr.pow(2));
    }
    state.calculate_probs();
    let (shape, probs) = state.get_probs();
    assert_eq!(shape, (16, 6));
    assert_eq!(probs.len(), 96);
}

#[test]
fn initialize_and_run_increment_squares_wilson_loops() {
    let r = 33;
    let mut state = empty(r, 4);
    state.initialize_squares((0..r).collect());
    for rr in 0..r {
        assert_eq!(state.loop_sum(rr) as usize, rr);
    }
    state.calculate_probs();
    let (shape, probs) = state.get_probs();
    assert_eq!(shape, (33, 2));
    assert_eq!(probs.len(), 66);
}

#[test]
fn test_wilson_loop_repeated_zeros() {
    let r = 17;
    let mut state = empty(r, 4);
    state.initialize_squares((0..r).collect());
    for rr in 0..r {
        assert_eq!(state.loop_sum(rr) as usize, rr);
    }
    state.calculate_probs();
    let result = state.get_probs();
    let ops = state.backend.reset_wilson_loop_transition_probs().unwrap();
    state.device.perform(ops);
    let (shape, zero_result) = state.get_probs();
    assert_eq!(shape, result.0);
    assert!(zero_result.iter().all(|x| *x == 0.0));
    state.calculate_probs();
    let new_result = state.get_probs();
    assert_eq!(result, new_result);
}

#[test]
fn averages_do_not_depend_on_the_number_of_calculations() {
    let mut state = empty(2, 4);
    state.initialize_ratios(vec![(1, 1), (2, 2)]);
    state.calculate_probs();
    let once = state.get_probs();
    state.calculate_probs();
    assert_eq!(state.get_probs(), once);
    assert_eq!(once.0, (2, 6));
    assert_eq!(once.1[0], 1.0);
    assert_eq!(once.1[3], 0.25);
}

#[test]
fn test_simple_plaquette_counts() {
    let (r, d) = (2, 6);
    let mut state = with_volumes(r, d, 3, &[([0, 0, 0, 0, 0, 0], 1)], Some(31415));
    let all = 6 * (d * d * d * d) as u32;
    for _ in 0..2 {
        let counts = state.get_plaquette_counts();
        assert_eq!(counts.shape(), vec![2, 5]);
        assert_eq!(counts.as_slice(), &[0, 3, all - 6, 3, 0, 0, 0, all, 0, 0]);
        let plaquettes = state.get_plaquettes();
        assert_eq!(state.backend.count_plaquettes_on_host(&plaquettes), counts);
    }
}

#[test]
fn test_plaquette_counts() {
    let (r, d) = (3, 8);
    let mut state = Simulation::new(
        SiteIndex::new(d, d, d, d),
        make_simple_potentials(r, 3),
        make_simple_potentials(r, 3),
        Some(DualState::new_plaquettes(planes_by_replica(r, d))),
        Some(31415),
        None,
    )
    .unwrap();
    let counts = state.get_plaquette_counts();
    let column: Vec<u32> = (0..r).map(|rr| counts.as_slice()[rr * 5 + 3]).collect();
    assert_eq!(column, vec![0, (d * d) as u32, (2 * d * d) as u32]);
}

#[test]
fn test_plaquette_counts_change_np() {
    let (r, d) = (3, 8);
    let mut values = Vec::new();
    for rr in 0..r {
        for t in 0..d {
            for x in 0..d {
                values.push(([rr, t, x, 0, 0, 0], rr as i32));
            }
        }
    }
    let mut state = Simulation::new(
        SiteIndex::new(d, d, d, d),
        make_simple_potentials(r, 3),
        make_simple_potentials(r, 3),
        Some(DualState::new_plaquettes(array([r, d, d, d, d, 6], &values))),
        Some(31415),
        None,
    )
    .unwrap();
    let counts = state.get_plaquette_counts();
    for i in 0..r {
        let mut row = vec![0u32; 5];
        row[2] = (6 * d * d * d * d - d * d) as u32;
        row[i + 2] += (d * d) as u32;
        assert_eq!(counts.as_slice()[i * 5..(i + 1) * 5].to_vec(), row);
    }
}

#[test]
fn pairs_of_plaquettes_are_counted_by_distance_and_values() {
    let (r, d) = (1, 4);
    let mut state = Simulation::new(
        SiteIndex::new(d, d, d, d),
        make_simple_potentials(r, 3),
        make_simple_potentials(r, 3),
        Some(DualState::new_plaquettes(array(
            [r, d, d, d, d, 6],
            &[([0, 0, 0, 0, 0, 0], 0), ([0, 0, 0, 0, 1, 0], 1)],
        ))),
        None,
        None,
    )
    .unwrap();
    let (pairs, ops) = state.backend.reserve_plaquette_pair_counts(1, d as u32).unwrap();
    state.device.perform(ops);
    state.backend.plaquette_pair_counts_ready(pairs);
    let ops = state.backend.accumulate_plaquette_pair_counts(1, d as u32, 0).unwrap();
    state.device.perform(ops);
    let ops = state.backend.fetch_plaquette_pair_counts().unwrap();
    let output = state.read_counts(ops);
    let table = state.backend.get_plaquette_pair_counts(output).expect("Should be some value.");
    assert_eq!(table.shape(), vec![1, 4, 6, 3, 3]);
    assert_eq!(table.as_slice().len(), 216);
}

#[test]
fn flux_adds_up_and_cancels() {
    let first = [([0, 0, 0, 0, 0, 0], 2), ([1, 1, 2, 3, 0, 4], -1), ([1, 3, 3, 3, 3, 5], 4)];
    let second = [([0, 0, 0, 0, 0, 1], 3), ([1, 1, 2, 3, 0, 3], 5)];
    let both: Vec<([usize; 6], i32)> = first.iter().chain(&second).copied().collect();
    let read = |values: &[([usize; 6], i32)]| {
        constructed(2, 4, values).get_edge_violations().as_slice().to_vec()
    };
    let (a, b, c) = (read(&first), read(&second), read(&both));
    let sum: Vec<i32> = a.iter().zip(&b).map(|(x, y)| x + y).collect();
    assert_eq!(c, sum);
    assert!(c.iter().any(|x| *x != 0));
    for r in 0..2 {
        for d in 0..4 {
            let row = c.len() / 2;
            let part = c[r * row..(r + 1) * row].iter().skip(d).step_by(4);
            assert_eq!(part.sum::<i32>(), 0);
        }
    }
}

#[test]
fn test_edge_counts_gpu_matches_cpu() {
    let (r, d) = (1, 4);
    let mut state = Simulation::new(
        SiteIndex::new(d, d, d, d),
        make_simple_potentials(r, 3),
        make_simple_potentials(r, 3),
        Some(DualState::new_plaquettes(array(
            [r, d, d, d, d, 6],
            &[([0, 0, 0, 0, 0, 0], 0), ([0, 0, 0, 0, 1, 0], 1)],
        ))),
        None,
        None,
    )
    .unwrap();
    let gpu_hist = state.get_edge_counts();
    let cpu_hist = state.get_edge_counts_cpu();
    assert_eq!(gpu_hist.shape(), cpu_hist.shape());
    assert_eq!(gpu_hist.shape(), vec![1, 25]);
    let b = state.backend.bounds;
    let expected_total = (state.backend.nreplicas * b.t * b.x * b.y * b.z * 4) as u32;
    assert_eq!(gpu_hist.as_slice().iter().sum::<u32>(), expected_total);
    assert_eq!(cpu_hist.as_slice().iter().sum::<u32>(), expected_total);
    assert_eq!(gpu_hist, cpu_hist);
    assert_eq!(cpu_hist.as_slice()[12], expected_total - 4);
    assert_eq!(cpu_hist.as_slice()[11] + cpu_hist.as_slice()[13], 4);
}

#[test]
fn permuting_there_and_back_restores_everything() {
    let mut state = graded(4, 4);
    let plaquettes = state.get_plaquettes();
    let energies = state.get_action_per_replica();
    state.permute_states(&[2, 0, 3, 1]);
    assert_ne!(state.get_plaquettes(), plaquettes);
    assert_eq!(state.backend.potential_redirect_array.describe(), "R[2, 0, 3, 1]");
    state.permute_states(&[1, 3, 0, 2]);
    assert_eq!(state.get_plaquettes(), plaquettes);
    assert_eq!(state.get_action_per_replica(), energies);
    assert_eq!(state.backend.potential_redirect_array.describe(), "[Identity]");
}

#[test]
fn tempering_counts_attempts_and_successes() {
    let mut state = graded(4, 4);
    state.backend.set_parallel_tracking(true);
    state.parallel_tempering_step_with_rand(&[(1, 0), (2, 3)], &[0.5, 0.5]);
    state.parallel_tempering_step_with_rand(&[(0, 1)], &[0.5]);
    let tracking = state.backend.get_parallel_tracking().unwrap();
    assert_eq!(tracking.get((0, 1)), Some((1, 2)));
    assert_eq!(tracking.get((2, 3)), Some((1, 1)));
    assert_eq!(tracking.get((1, 0)), None);
    let mut entries = tracking.entries();
    entries.sort();
    assert_eq!(entries, vec![((0, 1), (1, 2)), ((2, 3), (1, 1))]);
    state.backend.set_parallel_tracking(true);
    assert_eq!(state.backend.get_parallel_tracking().unwrap().entries(), vec![]);
    state.backend.set_parallel_tracking(false);
    assert!(state.backend.get_parallel_tracking().is_none());
}

#[test]
fn undecided_swaps_are_undone() {
    let mut state = graded(4, 4);
    let before = state.get_plaquettes();
    state.parallel_tempering_step_with_rand(&[(0, 1), (2, 3)], &[]);
    assert_eq!(state.get_plaquettes(), before);
}

#[test]
fn violations_name_the_edge_and_its_plaquettes() {
    let mut state = constructed(2, 4, &[([1, 0, 0, 0, 0, 0], 1)]);
    let plaquettes = state.get_plaquettes();
    let list = state.backend.get_edges_with_violations(&plaquettes);
    assert_eq!(list.len(), 4);
    let origin = SiteIndex::new(0, 0, 0, 0);
    assert_eq!(list[0].0, (1, origin, Dimension::T));
    assert_eq!(
        list[0].1,
        vec![
            (origin, 0),
            (origin, 1),
            (origin, 2),
            (SiteIndex::new(0, 3, 0, 0), 0),
            (SiteIndex::new(0, 0, 3, 0), 1),
            (SiteIndex::new(0, 0, 0, 3), 2),
        ]
    );
    assert_eq!(list[1].0, (1, origin, Dimension::X));
    assert_eq!(list[2].0, (1, SiteIndex::new(0, 1, 0, 0), Dimension::T));
    assert_eq!(list[3].0, (1, SiteIndex::new(1, 0, 0, 0), Dimension::X));
    let number = (4 * 4 * 4 * 4) * 4;
    assert_eq!(state.backend.edge_with_violation(&plaquettes, number), Some(list[0].clone()));
    assert_eq!(state.backend.edge_with_violation(&plaquettes, number + 2), None);
}

#[test]
fn caller_buffers_can_take_the_flux() {
    let mut state = constructed(1, 4, &[]);
    let plaquettes = array([1, 4, 4, 4, 4, 6], &[([0, 0, 0, 0, 0, 5], 3)]);
    state.device.memory.insert(
        Buffer::CallerPlaquettes,
        Memory::Ints(plaquettes.as_slice().to_vec()),
    );
    state.device.memory.insert(Buffer::CallerEdges, Memory::Ints(vec![0; 1024]));
    let ops = state
        .backend
        .calculate_edge_violations(Buffer::CallerEdges, Buffer::CallerPlaquettes);
    state.device.perform(ops);
    let edges = state.device.ints(Buffer::CallerEdges);
    assert_eq!(edges.iter().filter(|x| **x != 0).count(), 4);
    assert!(edges.iter().all(|x| *x == 0 || x.abs() == 3));
}

#[test]
fn new_potentials_replace_the_old_ones() {
    let mut state = graded(2, 4);
    let before = state.get_action_per_replica();
    let doubled: Vec<f32> =
        state.device.given[&Buffer::Potential].iter().map(|x| 2.0 * x).collect();
    state.device.given.insert(Buffer::Potential, doubled);
    let ops = state.backend.set_vns();
    state.device.perform(ops);
    let ops = state.backend.wait_for_gpu();
    state.device.perform(ops);
    let after = state.get_action_per_replica();
    assert_eq!(after, before.iter().map(|x| 2.0 * x).collect::<Vec<f32>>());
}
