//! What the host asks of the device.
//!
//! A [`DeviceOp`] is one request; the methods of the backend return lists of them. The
//! driver performs a list in order and gives up at the first failure.

use vstd::prelude::*;

verus! {

/// A kernel of the device.
#[derive(Clone, Copy, Debug, PartialEq, Eq, Hash, Structural)]
pub enum Kernel {
    /// Updates volumes of one kind and one parity.
    SingleLocalUpdatePlaquettes,
    /// Computes the flux through every edge.
    CalculateEdgeSums,
    /// Adds up the action along the last direction.
    PartialSumEnergies,
    /// Folds a buffer of actions.
    SumBuffer,
    /// Updates all planes that span the lattice.
    GlobalUpdateSweep,
    /// Computes the winding numbers.
    SumWinding,
    /// Updates the matter around plaquettes of one kind.
    UpdateMatterLoops,
    /// Computes the matter flow through every site.
    CalculateMatterFlowThroughCoords,
    /// Computes the matter at the corners of every plaquette.
    CalculateMatterCornersForPlaquettes,
    /// Adds up transition probabilities of rectangular loops.
    WilsonLoopProbs,
    /// Adds up transition probabilities of nearly square loops.
    WilsonLoopProbsIncrementalSquare,
    /// Puts a rectangular loop in every replica.
    InitializeWilsonLoopsForProbs,
    /// Puts a nearly square loop in every replica.
    InitializeWilsonLoopsForProbsIncrementalSquare,
    /// Shifts parts of planes to their neighbours.
    PlaneShiftUpdate,
    /// Folds a buffer of counts.
    SumIntBuffer,
    /// Counts plaquettes by value along the last two directions.
    PartialCountPlaquettes,
    /// Counts edges by flux along the last two directions.
    PartialCountEdges,
    /// Counts pairs of plaquettes by value and distance.
    CountPlaquettePairsWithIncreasingZ,
    /// Updates single plaquettes of one kind and one parity.
    ChargeUpdate,
}

impl Kernel {
    /// The name of the kernel in the device code.
    pub open spec fn entry(self) -> Seq<char> {
        match self {
            Kernel::SingleLocalUpdatePlaquettes => "single_local_update_plaquettes"@,
            Kernel::CalculateEdgeSums => "calculate_edge_sums"@,
            Kernel::PartialSumEnergies => "partial_sum_energies"@,
            Kernel::SumBuffer => "sum_buffer"@,
            Kernel::GlobalUpdateSweep => "global_update_sweep"@,
            Kernel::SumWinding => "sum_winding"@,
            Kernel::UpdateMatterLoops => "update_matter_loops"@,
            Kernel::CalculateMatterFlowThroughCoords => "calculate_matter_flow_through_coords"@,
            Kernel::CalculateMatterCornersForPlaquettes => "calculate_matter_corners_for_plaquettes"@,
            Kernel::WilsonLoopProbs => "wilson_loop_probs"@,
            Kernel::WilsonLoopProbsIncrementalSquare => "wilson_loop_probs_incremental_square"@,
            Kernel::InitializeWilsonLoopsForProbs => "initialize_wilson_loops_for_probs"@,
            Kernel::InitializeWilsonLoopsForProbsIncrementalSquare => "initialize_wilson_loops_for_probs_incremental_square"@,
            Kernel::PlaneShiftUpdate => "plane_shift_update"@,
            Kernel::SumIntBuffer => "sum_int_buffer"@,
            Kernel::PartialCountPlaquettes => "partial_count_plaquettes"@,
            Kernel::PartialCountEdges => "partial_count_edges"@,
            Kernel::CountPlaquettePairsWithIncreasingZ => "count_plaquette_pairs_with_increasing_z"@,
            Kernel::ChargeUpdate => "charge_update"@,
        }
    }

    /// The name of the kernel in the device code.
    pub fn name(&self) -> (r: &'static str)
        ensures
            r@ == self.entry(),
    {
        match self {
            Kernel::SingleLocalUpdatePlaquettes => "single_local_update_plaquettes",
            Kernel::CalculateEdgeSums => "calculate_edge_sums",
            Kernel::PartialSumEnergies => "partial_sum_energies",
            Kernel::SumBuffer => "sum_buffer",
            Kernel::GlobalUpdateSweep => "global_update_sweep",
            Kernel::SumWinding => "sum_winding",
            Kernel::UpdateMatterLoops => "update_matter_loops",
            Kernel::CalculateMatterFlowThroughCoords => "calculate_matter_flow_through_coords",
            Kernel::CalculateMatterCornersForPlaquettes => "calculate_matter_corners_for_plaquettes",
            Kernel::WilsonLoopProbs => "wilson_loop_probs",
            Kernel::WilsonLoopProbsIncrementalSquare => "wilson_loop_probs_incremental_square",
            Kernel::InitializeWilsonLoopsForProbs => "initialize_wilson_loops_for_probs",
            Kernel::InitializeWilsonLoopsForProbsIncrementalSquare => "initialize_wilson_loops_for_probs_incremental_square",
            Kernel::PlaneShiftUpdate => "plane_shift_update",
            Kernel::SumIntBuffer => "sum_int_buffer",
            Kernel::PartialCountPlaquettes => "partial_count_plaquettes",
            Kernel::PartialCountEdges => "partial_count_edges",
            Kernel::CountPlaquettePairsWithIncreasingZ => "count_plaquette_pairs_with_increasing_z",
            Kernel::ChargeUpdate => "charge_update",
        }
    }

    /// All kernels.
    pub fn all() -> (r: Vec<Kernel>)
        ensures
            forall|k: Kernel| #[trigger] r@.contains(k),
            r@.no_duplicates(),
    {
        let r = vec![
            Kernel::SingleLocalUpdatePlaquettes,
            Kernel::CalculateEdgeSums,
            Kernel::PartialSumEnergies,
            Kernel::SumBuffer,
            Kernel::GlobalUpdateSweep,
            Kernel::SumWinding,
            Kernel::UpdateMatterLoops,
            Kernel::CalculateMatterFlowThroughCoords,
            Kernel::CalculateMatterCornersForPlaquettes,
            Kernel::WilsonLoopProbs,
            Kernel::WilsonLoopProbsIncrementalSquare,
            Kernel::InitializeWilsonLoopsForProbs,
            Kernel::InitializeWilsonLoopsForProbsIncrementalSquare,
            Kernel::PlaneShiftUpdate,
            Kernel::SumIntBuffer,
            Kernel::PartialCountPlaquettes,
            Kernel::PartialCountEdges,
            Kernel::CountPlaquettePairsWithIncreasingZ,
            Kernel::ChargeUpdate,
        ];
        assert forall|k: Kernel| #[trigger] r@.contains(k) by {
            match k {
                Kernel::SingleLocalUpdatePlaquettes => assert(r@[0] == k),
                Kernel::CalculateEdgeSums => assert(r@[1] == k),
                Kernel::PartialSumEnergies => assert(r@[2] == k),
                Kernel::SumBuffer => assert(r@[3] == k),
                Kernel::GlobalUpdateSweep => assert(r@[4] == k),
                Kernel::SumWinding => assert(r@[5] == k),
                Kernel::UpdateMatterLoops => assert(r@[6] == k),
                Kernel::CalculateMatterFlowThroughCoords => assert(r@[7] == k),
                Kernel::CalculateMatterCornersForPlaquettes => assert(r@[8] == k),
                Kernel::WilsonLoopProbs => assert(r@[9] == k),
                Kernel::WilsonLoopProbsIncrementalSquare => assert(r@[10] == k),
                Kernel::InitializeWilsonLoopsForProbs => assert(r@[11] == k),
                Kernel::InitializeWilsonLoopsForProbsIncrementalSquare => assert(r@[12] == k),
                Kernel::PlaneShiftUpdate => assert(r@[13] == k),
                Kernel::SumIntBuffer => assert(r@[14] == k),
                Kernel::PartialCountPlaquettes => assert(r@[15] == k),
                Kernel::PartialCountEdges => assert(r@[16] == k),
                Kernel::CountPlaquettePairsWithIncreasingZ => assert(r@[17] == k),
                Kernel::ChargeUpdate => assert(r@[18] == k),
            }
        }
        r
    }
}

/// A buffer in device memory.
#[derive(Clone, Copy, Debug, PartialEq, Eq, Hash, Structural)]
pub enum Buffer {
    /// The plaquettes of all replicas.
    State,
    /// The plaquette potentials.
    Potential,
    /// The plaquette potential of each state.
    PotentialRedirect,
    /// The edge potentials.
    EdgePotential,
    /// The edge potential of each state.
    EdgePotentialRedirect,
    /// The chemical potential of the winding of each replica.
    WindingChemicalPotential,
    /// Uniform random numbers.
    Rng,
    /// The aspect ratios of the loops.
    AspectRatios,
    /// The increments of the loops.
    Increments,
    /// The sums of transition probabilities.
    Probs,
    /// The counts of pairs of plaquettes.
    PairCounts,
    /// Plaquettes that a caller brought.
    CallerPlaquettes,
    /// A buffer for edges that a caller brought.
    CallerEdges,
    /// Signed integers that are dropped after the request.
    ScratchI32,
    /// Unsigned integers that are dropped after the request.
    ScratchU32,
    /// Numbers with a fraction that are dropped after the request.
    ScratchFloat,
}

/// An argument of a kernel.
#[derive(Clone, Copy, Debug, PartialEq, Eq, Structural)]
pub enum KernelArg {
    /// A buffer that the kernel reads.
    Read(Buffer),
    /// A buffer that the kernel may write.
    Write(Buffer),
    /// A size.
    Size(usize),
    /// A 16 bit number.
    Short(u16),
    /// A 32 bit number.
    Word(u32),
    /// A flag.
    Flag(bool),
}

/// How the threads of a launch are arranged.
#[derive(Clone, Copy, Debug, PartialEq, Eq)]
pub struct LaunchConfig {
    /// The number of blocks in each direction.
    pub grid_dim: (u32, u32, u32),
    /// The number of threads of a block in each direction.
    pub block_dim: (u32, u32, u32),
    /// The shared memory of a block.
    pub shared_mem_bytes: u32,
}

/// Enough blocks of `block` threads for `n` threads.
pub open spec fn config_with_block(n: u32, block: u32) -> LaunchConfig {
    LaunchConfig {
        grid_dim: (((n + block - 1) / block as int) as u32, 1, 1),
        block_dim: (block, 1, 1),
        shared_mem_bytes: 0,
    }
}

/// `cudarc::driver::LaunchConfig::for_num_elems`: blocks of 1024 threads, as many as it
/// takes for `n` threads, and no shared memory.
#[verifier::external_body]
fn num_elems_config(n: u32) -> (r: LaunchConfig)
    ensures
        r == config_with_block(n, 1024),
{
    let c = cudarc::driver::LaunchConfig::for_num_elems(n);
    LaunchConfig {
        grid_dim: c.grid_dim,
        block_dim: c.block_dim,
        shared_mem_bytes: c.shared_mem_bytes,
    }
}

impl LaunchConfig {
    /// Enough blocks of 1024 threads for `n` threads.
    pub fn for_num_elems(n: u32) -> (r: LaunchConfig)
        ensures
            r == config_with_block(n, 1024),
    {
        num_elems_config(n)
    }

    /// Enough blocks for `n` threads, of the given size if there is one.
    pub fn with_block_size(n: u32, block_size: Option<u32>) -> (r: LaunchConfig)
        requires
            block_size matches Some(x) ==> x > 0 && n + x - 1 <= u32::MAX,
        ensures
            r == config_with_block(
                n,
                match block_size {
                    Some(x) => x,
                    None => 1024,
                },
            ),
    {
        match block_size {
            None => Self::for_num_elems(n),
            Some(x) => LaunchConfig {
                grid_dim: ((n + (x - 1)) / x, 1, 1),
                block_dim: (x, 1, 1),
                shared_mem_bytes: 0,
            },
        }
    }
}

/// A launch has a thread for each of `n` elements, and less than a block more.
pub proof fn law_launch_covers(n: u32, block: u32)
    requires
        block > 0,
    ensures
        ({
            let c = config_with_block(n, block);
            &&& n <= c.grid_dim.0 * c.block_dim.0 < n + block
            &&& c.grid_dim.1 == 1 && c.grid_dim.2 == 1
            &&& c.block_dim == (block, 1u32, 1u32)
            &&& c.shared_mem_bytes == 0
        }),
{
    let q = (n + block - 1) / block as int;
    let b = block as int;
    assert(0 <= q <= u32::MAX && n <= q * b < n + b) by (nonlinear_arith)
        requires
            b > 0,
            b == block,
            q == (n + b - 1) / b,
    ;
}

/// A kernel with its arguments and threads.
#[derive(Debug, PartialEq)]
pub struct Launch {
    /// The kernel.
    pub kernel: Kernel,
    /// Its arguments, in order.
    pub args: Vec<KernelArg>,
    /// Its threads.
    pub config: LaunchConfig,
}

/// What a [`Launch`] asks for.
pub struct LaunchModel {
    /// The kernel.
    pub kernel: Kernel,
    /// Its arguments, in order.
    pub args: Seq<KernelArg>,
    /// Its threads.
    pub config: LaunchConfig,
}

impl View for Launch {
    type V = LaunchModel;

    open spec fn view(&self) -> LaunchModel {
        LaunchModel { kernel: self.kernel, args: self.args@, config: self.config }
    }
}

/// A launch of `threads` threads, in blocks of 1024.
pub open spec fn launch_model(kernel: Kernel, args: Seq<KernelArg>, threads: u32) -> LaunchModel {
    LaunchModel { kernel, args, config: config_with_block(threads, 1024) }
}

/// The number of threads of a launch, over all blocks and directions.
pub open spec fn threads_of(l: LaunchModel) -> int {
    let (g, b) = (l.config.grid_dim, l.config.block_dim);
    g.0 * g.1 * g.2 * (b.0 * b.1 * b.2)
}

/// The launch has a thread for each of `n` elements, and less than a block more.
pub open spec fn covers(l: LaunchModel, n: int) -> bool {
    n <= threads_of(l) < n + 1024
}

/// A launch runs the kernel that it was made for on the arguments that it was made with, and
/// has a thread for every one that was asked for, in blocks of 1024 without shared memory.
pub proof fn law_launch_is_what_was_asked(kernel: Kernel, args: Seq<KernelArg>, threads: u32)
    ensures
        ({
            let l = launch_model(kernel, args, threads);
            &&& l.kernel == kernel
            &&& l.args == args
            &&& covers(l, threads as int)
            &&& l.config.block_dim == (1024u32, 1u32, 1u32)
            &&& l.config.shared_mem_bytes == 0
        }),
{
    law_launch_covers(threads, 1024);
}

/// The only 16 bit number among the arguments is `v`.
pub open spec fn names_only_short(args: Seq<KernelArg>, v: u16) -> bool {
    &&& args.contains(KernelArg::Short(v))
    &&& forall|i: int|
        0 <= i < args.len() && (#[trigger] args[i]) is Short ==> args[i] == KernelArg::Short(v)
}

/// The only flag among the arguments is `v`.
pub open spec fn names_only_flag(args: Seq<KernelArg>, v: bool) -> bool {
    &&& args.contains(KernelArg::Flag(v))
    &&& forall|i: int|
        0 <= i < args.len() && (#[trigger] args[i]) is Flag ==> args[i] == KernelArg::Flag(v)
}

/// The arguments end in these sizes.
pub open spec fn ends_in_sizes(args: Seq<KernelArg>, sizes: Seq<usize>) -> bool {
    &&& sizes.len() <= args.len()
    &&& forall|i: int|
        #![trigger sizes[i]]
        0 <= i < sizes.len() ==> args[args.len() - sizes.len() + i] == KernelArg::Size(sizes[i])
}

/// The arguments begin with these.
pub open spec fn begins_with(args: Seq<KernelArg>, head: Seq<KernelArg>) -> bool {
    &&& head.len() <= args.len()
    &&& forall|i: int| #![trigger head[i]] 0 <= i < head.len() ==> args[i] == head[i]
}

/// The kernel is given the buffer.
pub open spec fn names_buffer(args: Seq<KernelArg>, b: Buffer) -> bool {
    args.contains(KernelArg::Read(b)) || args.contains(KernelArg::Write(b))
}

/// The kernel is given these buffers and no others.
pub open spec fn names_just(args: Seq<KernelArg>, buffers: Set<Buffer>) -> bool {
    forall|b: Buffer| #[trigger] names_buffer(args, b) <==> buffers.contains(b)
}

impl Launch {
    /// A launch of `threads` threads, the number cut to 32 bits, in blocks of 1024.
    pub fn new(kernel: Kernel, args: Vec<KernelArg>, threads: usize) -> (r: Launch)
        ensures
            r@ == launch_model(kernel, args@, threads as u32),
    {
        Launch { kernel, args, config: LaunchConfig::for_num_elems(threads as u32) }
    }
}

/// Data to be copied to the device.
#[derive(Debug, PartialEq)]
pub enum HostData {
    /// Signed integers.
    I32(Vec<i32>),
    /// Unsigned integers.
    U32(Vec<u32>),
    /// This many zeros.
    Zeros(usize),
    /// The numbers with a fraction that the caller gave for the buffer.
    FromCaller,
}

/// What [`HostData`] holds.
pub enum HostModel {
    /// Signed integers.
    I32(Seq<i32>),
    /// Unsigned integers.
    U32(Seq<u32>),
    /// This many zeros.
    Zeros(usize),
    /// The numbers with a fraction that the caller gave for the buffer.
    FromCaller,
}

impl View for HostData {
    type V = HostModel;

    open spec fn view(&self) -> HostModel {
        match self {
            HostData::I32(v) => HostModel::I32(v@),
            HostData::U32(v) => HostModel::U32(v@),
            HostData::Zeros(n) => HostModel::Zeros(*n),
            HostData::FromCaller => HostModel::FromCaller,
        }
    }
}

/// A request to the device.
#[derive(Debug, PartialEq)]
pub enum DeviceOp {
    /// Replace a buffer by a new one of `len` zeros.
    AllocZeros {
        /// The buffer.
        buffer: Buffer,
        /// Its length.
        len: usize,
    },
    /// Copy data to the front of a buffer.
    Upload {
        /// The buffer.
        buffer: Buffer,
        /// The data.
        data: HostData,
    },
    /// Set a buffer to zero.
    Clear {
        /// The buffer.
        buffer: Buffer,
    },
    /// Set up the random generator.
    SeedRng {
        /// Its seed.
        seed: u64,
    },
    /// Fill a buffer with uniform random numbers.
    FillUniform {
        /// The buffer.
        buffer: Buffer,
    },
    /// Launch a kernel.
    Run(Launch),
    /// Let one buffer take the place of another.
    Keep {
        /// The buffer that is kept.
        from: Buffer,
        /// The buffer whose place it takes.
        to: Buffer,
    },
    /// Copy the first `len` elements of a buffer to the host.
    Download {
        /// The buffer.
        buffer: Buffer,
        /// The number of elements.
        len: usize,
    },
    /// Wait until the device has done all that was asked before.
    Synchronize,
}

/// What a [`DeviceOp`] asks for.
pub enum OpModel {
    /// Replace a buffer by a new one of `len` zeros.
    AllocZeros {
        /// The buffer.
        buffer: Buffer,
        /// Its length.
        len: usize,
    },
    /// Copy data to the front of a buffer.
    Upload {
        /// The buffer.
        buffer: Buffer,
        /// The data.
        data: HostModel,
    },
    /// Set a buffer to zero.
    Clear {
        /// The buffer.
        buffer: Buffer,
    },
    /// Set up the random generator.
    SeedRng {
        /// Its seed.
        seed: u64,
    },
    /// Fill a buffer with uniform random numbers.
    FillUniform {
        /// The buffer.
        buffer: Buffer,
    },
    /// Launch a kernel.
    Run(LaunchModel),
    /// Let one buffer take the place of another.
    Keep {
        /// The buffer that is kept.
        from: Buffer,
        /// The buffer whose place it takes.
        to: Buffer,
    },
    /// Copy the first `len` elements of a buffer to the host.
    Download {
        /// The buffer.
        buffer: Buffer,
        /// The number of elements.
        len: usize,
    },
    /// Wait until the device has done all that was asked before.
    Synchronize,
}

impl View for DeviceOp {
    type V = OpModel;

    open spec fn view(&self) -> OpModel {
        match self {
            DeviceOp::AllocZeros { buffer, len } => OpModel::AllocZeros {
                buffer: *buffer,
                len: *len,
            },
            DeviceOp::Upload { buffer, data } => OpModel::Upload { buffer: *buffer, data: data@ },
            DeviceOp::Clear { buffer } => OpModel::Clear { buffer: *buffer },
            DeviceOp::SeedRng { seed } => OpModel::SeedRng { seed: *seed },
            DeviceOp::FillUniform { buffer } => OpModel::FillUniform { buffer: *buffer },
            DeviceOp::Run(launch) => OpModel::Run(launch@),
            DeviceOp::Keep { from, to } => OpModel::Keep { from: *from, to: *to },
            DeviceOp::Download { buffer, len } => OpModel::Download {
                buffer: *buffer,
                len: *len,
            },
            DeviceOp::Synchronize => OpModel::Synchronize,
        }
    }
}

/// What a list of requests asks for.
pub open spec fn plan(ops: Seq<DeviceOp>) -> Seq<OpModel> {
    ops.map_values(|op: DeviceOp| op@)
}

} // verus!
