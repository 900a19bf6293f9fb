//! Wilson loops and the probabilities of making them larger or smaller.
//!
//! A measurement is first initialized, which puts a loop into every replica. Each
//! calculation then adds the transition probabilities of the present state to a buffer
//! of the device, and reading them out divides by the number of calculations.

use crate::backend::{told_of_lattice, CudaBackend, WilsonLoopData};
use crate::device::{
    begins_with, covers, launch_model, law_launch_is_what_was_asked, names_just, names_only_short,
    plan, Buffer, DeviceOp, HostData, HostModel, Kernel, KernelArg, Launch, LaunchModel, OpModel,
};
use crate::error::{decimal, decimal_chars, CudaError};
use vstd::prelude::*;

verus! {

/// The message about a wrong number of loops.
pub open spec fn wrong_number_chars(n: usize, found: nat) -> Seq<char> {
    "With "@ + decimal_chars(n as nat) + " replicas expected "@ + decimal_chars(n as nat)
        + " aspect ratios but found "@ + decimal_chars(found)
}

/// The numbers of pairs one after the other, cut to 32 bits.
pub open spec fn flattened(pairs: Seq<(usize, usize)>) -> Seq<u32> {
    Seq::new(
        2 * pairs.len(),
        |i: int|
            if i % 2 == 0 {
                pairs[i / 2].0 as u32
            } else {
                pairs[i / 2].1 as u32
            },
    )
}

/// Numbers cut to 32 bits.
pub open spec fn shortened(numbers: Seq<usize>) -> Seq<u32> {
    numbers.map_values(|x: usize| x as u32)
}

/// Two extents in one number, as the probability kernels take them.
pub open spec fn packed(a: usize, b: usize) -> usize {
    (a << 16usize) | b
}

/// Extents below 65536 can be read back from the number that holds both.
pub proof fn law_packed_extents_can_be_read(a: usize, b: usize)
    requires
        a < 0x1_0000,
        b < 0x1_0000,
    ensures
        packed(a, b) >> 16usize == a,
        packed(a, b) & 0xffff == b,
{
    assert(((a << 16usize) | b) >> 16usize == a && ((a << 16usize) | b) & 0xffff == b)
        by (bit_vector)
        requires
            a < 0x1_0000,
            b < 0x1_0000,
    ;
}

fn wrong_number(n: usize, found: usize) -> (r: String)
    ensures
        r@ == wrong_number_chars(n, found as nat),
{
    let number = decimal(n);
    let mut r = String::from_str("With ");
    r.append(number.as_str());
    r.append(" replicas expected ");
    r.append(number.as_str());
    r.append(" aspect ratios but found ");
    r.append(decimal(found).as_str());
    r
}

fn flatten(pairs: &[(usize, usize)]) -> (r: Vec<u32>)
    ensures
        r@ == flattened(pairs@),
{
    let mut r: Vec<u32> = Vec::new();
    let mut i: usize = 0;
    while i < pairs.len()
        invariant
            i <= pairs@.len(),
            r@ == flattened(pairs@).take(2 * i),
        decreases pairs@.len() - i,
    {
        r.push(pairs[i].0 as u32);
        r.push(pairs[i].1 as u32);
        assert(r@ =~= flattened(pairs@).take(2 * (i + 1)));
        i += 1;
    }
    assert(flattened(pairs@).take(2 * i) =~= flattened(pairs@));
    r
}

fn shorten(numbers: &[usize]) -> (r: Vec<u32>)
    ensures
        r@ == shortened(numbers@),
{
    let mut r: Vec<u32> = Vec::new();
    let mut i: usize = 0;
    while i < numbers.len()
        invariant
            i <= numbers@.len(),
            r@ == shortened(numbers@).take(i as int),
        decreases numbers@.len() - i,
    {
        r.push(numbers[i] as u32);
        assert(r@ =~= shortened(numbers@).take(i + 1));
        i += 1;
    }
    assert(shortened(numbers@).take(i as int) =~= shortened(numbers@));
    r
}

impl WilsonLoopData {
    /// The number of probabilities per replica.
    pub open spec fn width(self) -> int {
        match self {
            WilsonLoopData::AspectRatios { .. } => 6,
            WilsonLoopData::IncrementOnSquares { .. } => 2,
        }
    }

    /// How often the probabilities were added up.
    pub open spec fn runs(self) -> usize {
        match self {
            WilsonLoopData::AspectRatios { times_run, .. } => times_run,
            WilsonLoopData::IncrementOnSquares { times_run, .. } => times_run,
        }
    }

    /// The same loops, the probabilities having been added up `runs` times.
    pub open spec fn with_runs(self, runs: usize) -> WilsonLoopData {
        match self {
            WilsonLoopData::AspectRatios { plaquette_type, .. } => WilsonLoopData::AspectRatios {
                plaquette_type,
                times_run: runs,
            },
            WilsonLoopData::IncrementOnSquares {
                plaquette_type,
                ..
            } => WilsonLoopData::IncrementOnSquares { plaquette_type, times_run: runs },
        }
    }

    /// The number by which the sums of probabilities are divided, if any.
    pub fn divisor(&self) -> (r: Option<usize>)
        ensures
            r == (if self.runs() > 0 {
                Some(self.runs())
            } else {
                None
            }),
    {
        let times_run = match self {
            WilsonLoopData::AspectRatios { times_run, .. } => *times_run,
            WilsonLoopData::IncrementOnSquares { times_run, .. } => *times_run,
        };
        if times_run > 0 {
            Some(times_run)
        } else {
            None
        }
    }
}

/// A measurement after the probabilities were added up `k` more times.
pub open spec fn calculated(data: WilsonLoopData, k: nat) -> WilsonLoopData
    decreases k,
{
    if k == 0 {
        data
    } else {
        let before = calculated(data, (k - 1) as nat);
        before.with_runs((before.runs() + 1) as usize)
    }
}

/// Calculations add up: `k` of them after a reset, or after the initialization, make the
/// divisor `k`, and they change nothing else.
pub proof fn law_calculations_are_counted(data: WilsonLoopData, k: nat)
    requires
        data.runs() + k <= usize::MAX,
    ensures
        calculated(data, k) == data.with_runs((data.runs() + k) as usize),
        k <= usize::MAX ==> calculated(data.with_runs(0), k) == data.with_runs(k as usize),
    decreases k,
{
    if k > 0 {
        law_calculations_are_counted(data, (k - 1) as nat);
    }
}

/// What putting loops into all replicas asks of the device.
pub open spec fn loops_plan(
    kernel: Kernel,
    state: &CudaBackend,
    loops: Seq<u32>,
    place: Buffer,
    plaquette_type: u16,
    probs: usize,
) -> Seq<OpModel> {
    seq![
        OpModel::AllocZeros { buffer: Buffer::ScratchU32, len: loops.len() as usize },
        OpModel::Upload { buffer: Buffer::ScratchU32, data: HostModel::U32(loops) },
        OpModel::Run(
            launch_model(
                kernel,
                seq![
                    KernelArg::Write(Buffer::State),
                    KernelArg::Read(Buffer::ScratchU32),
                    KernelArg::Short(plaquette_type),
                ] + state.site_args(),
                state.nreplicas as u32,
            ),
        ),
        OpModel::AllocZeros { buffer: Buffer::ScratchFloat, len: probs },
        OpModel::Keep { from: Buffer::ScratchU32, to: place },
        OpModel::Keep { from: Buffer::ScratchFloat, to: Buffer::Probs },
    ]
}

/// What adding up the transition probabilities asks of the device.
pub open spec fn probs_launch(state: &CudaBackend, data: WilsonLoopData) -> LaunchModel {
    let (kernel, loops, plaquette_type) = match data {
        WilsonLoopData::AspectRatios { plaquette_type, .. } => (
            Kernel::WilsonLoopProbs,
            Buffer::AspectRatios,
            plaquette_type,
        ),
        WilsonLoopData::IncrementOnSquares { plaquette_type, .. } => (
            Kernel::WilsonLoopProbsIncrementalSquare,
            Buffer::Increments,
            plaquette_type,
        ),
    };
    launch_model(
        kernel,
        seq![
            KernelArg::Write(Buffer::State),
            KernelArg::Read(Buffer::Potential),
            KernelArg::Read(Buffer::WindingChemicalPotential),
            KernelArg::Read(Buffer::PotentialRedirect),
            KernelArg::Size(state.potential_size),
            KernelArg::Read(loops),
            KernelArg::Write(Buffer::Probs),
            KernelArg::Short(plaquette_type),
            KernelArg::Size(state.nreplicas),
            KernelArg::Size(packed(state.bounds.t, state.bounds.x)),
            KernelArg::Size(packed(state.bounds.y, state.bounds.z)),
        ],
        state.nreplicas as u32,
    )
}

/// The requests of an initialization and the launch of a calculation of `data` belong
/// together: they name the same plane and no other, the loops that the one uploads and keeps
/// are those that the other reads, and the sums that the one clears, which are as many as are
/// read of the measurement, are those that the other adds to.
pub open spec fn loops_belong_to(
    ops: Seq<OpModel>,
    state: &CudaBackend,
    data: WilsonLoopData,
    plaquette_type: u16,
) -> bool {
    let l = probs_launch(state, data);
    let squares = data is IncrementOnSquares;
    &&& ops.len() == 6
    &&& ops[0] matches OpModel::AllocZeros { buffer, len } && buffer == Buffer::ScratchU32 && (
    ops[1] matches OpModel::Upload { buffer, data: HostModel::U32(loops) } && buffer
        == Buffer::ScratchU32 && loops.len() == len)
    &&& ops[2] matches OpModel::Run(start) && {
        &&& start.kernel == if squares {
            Kernel::InitializeWilsonLoopsForProbsIncrementalSquare
        } else {
            Kernel::InitializeWilsonLoopsForProbs
        }
        &&& l.kernel == if squares {
            Kernel::WilsonLoopProbsIncrementalSquare
        } else {
            Kernel::WilsonLoopProbs
        }
        &&& names_only_short(start.args, plaquette_type)
        &&& names_only_short(l.args, plaquette_type)
        &&& begins_with(
            start.args,
            seq![
                KernelArg::Write(Buffer::State),
                KernelArg::Read(Buffer::ScratchU32),
                KernelArg::Short(plaquette_type),
            ],
        )
        &&& names_just(start.args, set![Buffer::State, Buffer::ScratchU32])
        &&& start.args.len() == 8
        &&& told_of_lattice(start.args, state)
        &&& state.nreplicas <= u32::MAX ==> covers(start, state.nreplicas as int) && covers(
            l,
            state.nreplicas as int,
        )
    }
    &&& ops[3] matches OpModel::AllocZeros { buffer, len } && buffer == Buffer::ScratchFloat && len
        == state.nreplicas * data.width()
    &&& ops[4] matches OpModel::Keep { from, to } && from == Buffer::ScratchU32 && begins_with(
        l.args,
        seq![
            KernelArg::Write(Buffer::State),
            KernelArg::Read(Buffer::Potential),
            KernelArg::Read(Buffer::WindingChemicalPotential),
            KernelArg::Read(Buffer::PotentialRedirect),
            KernelArg::Size(state.potential_size),
            KernelArg::Read(to),
            KernelArg::Write(Buffer::Probs),
            KernelArg::Short(plaquette_type),
            KernelArg::Size(state.nreplicas),
        ],
    ) && names_just(
        l.args,
        set![
            Buffer::State,
            Buffer::Potential,
            Buffer::WindingChemicalPotential,
            Buffer::PotentialRedirect,
            Buffer::Probs,
            to,
        ],
    )
    &&& ops[5] == (OpModel::Keep { from: Buffer::ScratchFloat, to: Buffer::Probs })
    &&& data.width() == if squares {
        2int
    } else {
        6int
    }
}

/// The plane that a calculation's launch names is the plane that the initialization's launch
/// named, for both kinds of loops and however many calculations have gone before; a
/// calculation reads the loops of its own initialization and adds to its own sums, six per
/// replica for rectangles and two for squares.
pub proof fn law_calculations_belong_to_their_loops(
    state: &CudaBackend,
    ratios: Seq<(usize, usize)>,
    increments: Seq<usize>,
    plaquette_type: u16,
    k: nat,
)
    requires
        state.nreplicas * 6 <= usize::MAX,
        ratios.len() == state.nreplicas,
        increments.len() == state.nreplicas,
        2 * ratios.len() <= usize::MAX,
        k <= usize::MAX,
    ensures
        loops_belong_to(
            loops_plan(
                Kernel::InitializeWilsonLoopsForProbs,
                state,
                flattened(ratios),
                Buffer::AspectRatios,
                plaquette_type,
                (state.nreplicas * 6) as usize,
            ),
            state,
            calculated(WilsonLoopData::AspectRatios { plaquette_type, times_run: 0 }, k),
            plaquette_type,
        ),
        loops_belong_to(
            loops_plan(
                Kernel::InitializeWilsonLoopsForProbsIncrementalSquare,
                state,
                shortened(increments),
                Buffer::Increments,
                plaquette_type,
                (state.nreplicas * 2) as usize,
            ),
            state,
            calculated(WilsonLoopData::IncrementOnSquares { plaquette_type, times_run: 0 }, k),
            plaquette_type,
        ),
{
    let rectangles = WilsonLoopData::AspectRatios { plaquette_type, times_run: 0 };
    let squares = WilsonLoopData::IncrementOnSquares { plaquette_type, times_run: 0 };
    law_calculations_are_counted(rectangles, k);
    law_calculations_are_counted(squares, k);
    lemma_loops_belong_to(
        Kernel::InitializeWilsonLoopsForProbs,
        state,
        flattened(ratios),
        Buffer::AspectRatios,
        plaquette_type,
        calculated(rectangles, k),
    );
    lemma_loops_belong_to(
        Kernel::InitializeWilsonLoopsForProbsIncrementalSquare,
        state,
        shortened(increments),
        Buffer::Increments,
        plaquette_type,
        calculated(squares, k),
    );
}

/// What putting loops into the replicas asks of the device belongs to the calculations.
proof fn lemma_loops_belong_to(
    kernel: Kernel,
    state: &CudaBackend,
    loops: Seq<u32>,
    place: Buffer,
    plaquette_type: u16,
    data: WilsonLoopData,
)
    requires
        loops.len() <= usize::MAX,
        0 <= state.nreplicas * data.width() <= usize::MAX,
        match data {
            WilsonLoopData::AspectRatios { plaquette_type: p, .. } => p == plaquette_type && kernel
                == Kernel::InitializeWilsonLoopsForProbs && place == Buffer::AspectRatios,
            WilsonLoopData::IncrementOnSquares { plaquette_type: p, .. } => p == plaquette_type
                && kernel == Kernel::InitializeWilsonLoopsForProbsIncrementalSquare && place
                == Buffer::Increments,
        },
    ensures
        loops_belong_to(
            loops_plan(
                kernel,
                state,
                loops,
                place,
                plaquette_type,
                (state.nreplicas * data.width()) as usize,
            ),
            state,
            data,
            plaquette_type,
        ),
{
    let n = state.nreplicas;
    let ops = loops_plan(
        kernel,
        state,
        loops,
        place,
        plaquette_type,
        (n * data.width()) as usize,
    );
    let l = probs_launch(state, data);
    let start = ops[2]->Run_0;
    law_launch_is_what_was_asked(start.kernel, start.args, n as u32);
    law_launch_is_what_was_asked(l.kernel, l.args, n as u32);
    let k = start.args;
    assert(k[0] == KernelArg::Write(Buffer::State));
    assert(k[1] == KernelArg::Read(Buffer::ScratchU32));
    assert(k[2] == KernelArg::Short(plaquette_type));
    let j = l.args;
    assert(j[0] == KernelArg::Write(Buffer::State));
    assert(j[1] == KernelArg::Read(Buffer::Potential));
    assert(j[2] == KernelArg::Read(Buffer::WindingChemicalPotential));
    assert(j[3] == KernelArg::Read(Buffer::PotentialRedirect));
    assert(j[5] == KernelArg::Read(place));
    assert(j[6] == KernelArg::Write(Buffer::Probs));
    assert(j[7] == KernelArg::Short(plaquette_type));
}

/// The kernels that calculate are told the sizes: the number of potentials, of replicas, and
/// the extents in two numbers from which they can be read if they are below 65536. What a
/// calculation launches does not depend on how many have gone before, and only the plane that
/// it names depends on the plane.
pub proof fn law_calculations_are_told_the_sizes(
    state: &CudaBackend,
    data: WilsonLoopData,
    runs: usize,
)
    requires
        state.bounds.t < 0x1_0000,
        state.bounds.x < 0x1_0000,
        state.bounds.y < 0x1_0000,
        state.bounds.z < 0x1_0000,
    ensures
        ({
            let l = probs_launch(state, data);
            let b = state.bounds;
            &&& l.args.len() == 11
            &&& l.args.contains(KernelArg::Size(state.potential_size))
            &&& l.args[8] == KernelArg::Size(state.nreplicas)
            &&& l.args[9] matches KernelArg::Size(tx) && tx >> 16usize == b.t && tx & 0xffff == b.x
            &&& l.args[10] matches KernelArg::Size(yz) && yz >> 16usize == b.y && yz & 0xffff == b.z
            &&& probs_launch(state, data.with_runs(runs)) == l
            &&& data.with_runs(runs).width() == data.width()
            &&& data.with_runs(runs).runs() == runs
        }),
{
    law_packed_extents_can_be_read(state.bounds.t, state.bounds.x);
    law_packed_extents_can_be_read(state.bounds.y, state.bounds.z);
    let l = probs_launch(state, data);
    assert(l.args[4] == KernelArg::Size(state.potential_size));
}

/// The loops are uploaded in the order of the replicas: two numbers for a rectangle, one for
/// a square, each less than `2^32` as it was given.
pub proof fn law_loops_are_uploaded_in_order(
    ratios: Seq<(usize, usize)>,
    increments: Seq<usize>,
    r: int,
)
    ensures
        flattened(ratios).len() == 2 * ratios.len(),
        shortened(increments).len() == increments.len(),
        0 <= r < ratios.len() && ratios[r].0 <= u32::MAX ==> flattened(ratios)[2 * r]
            == ratios[r].0,
        0 <= r < ratios.len() && ratios[r].1 <= u32::MAX ==> flattened(ratios)[2 * r + 1]
            == ratios[r].1,
        0 <= r < increments.len() && increments[r] <= u32::MAX ==> shortened(increments)[r]
            == increments[r],
{
}

/// The message that no measurement is under way.
pub open spec fn not_initialized_chars() -> Seq<char> {
    "Initialization has not been run."@
}

fn not_initialized<T>() -> (r: Result<T, CudaError>)
    ensures
        r matches Err(e) && e.is_value(not_initialized_chars()),
{
    CudaError::value_error(String::from_str("Initialization has not been run."))
}

impl CudaBackend {
    /// Nothing but the measurement of Wilson loops differs from `before`.
    pub open spec fn same_but_wilson(&self, before: CudaBackend) -> bool {
        *self == (CudaBackend {
            wilson_loop_probs: self.wilson_loop_probs,
            ..before
        })
    }

    fn loops_ops(
        &self,
        kernel: Kernel,
        loops: Vec<u32>,
        place: Buffer,
        plaquette_type: u16,
        probs: usize,
    ) -> (r: Vec<DeviceOp>)
        ensures
            plan(r@) == loops_plan(kernel, self, loops@, place, plaquette_type, probs),
    {
        let ghost given = loops@;
        let args = self.with_sites(
            vec![
                KernelArg::Write(Buffer::State),
                KernelArg::Read(Buffer::ScratchU32),
                KernelArg::Short(plaquette_type),
            ],
        );
        let ops = vec![
            DeviceOp::AllocZeros { buffer: Buffer::ScratchU32, len: loops.len() },
            DeviceOp::Upload { buffer: Buffer::ScratchU32, data: HostData::U32(loops) },
            DeviceOp::Run(Launch::new(kernel, args, self.nreplicas)),
            DeviceOp::AllocZeros { buffer: Buffer::ScratchFloat, len: probs },
            DeviceOp::Keep { from: Buffer::ScratchU32, to: place },
            DeviceOp::Keep { from: Buffer::ScratchFloat, to: Buffer::Probs },
        ];
        assert(plan(ops@) =~= loops_plan(kernel, self, given, place, plaquette_type, probs));
        ops
    }

    /// The requests that put a rectangular loop into every replica, and the measurement
    /// that [`CudaBackend::wilson_loops_ready`] starts when the device has done them.
    pub fn initialize_wilson_loops_per_replica(
        &self,
        aspect_ratios: Vec<(usize, usize)>,
        plaquette_type: u16,
    ) -> (r: Result<(WilsonLoopData, Vec<DeviceOp>), CudaError>)
        requires
            self.nreplicas * 6 <= usize::MAX,
        ensures
            match r {
                Err(e) => aspect_ratios@.len() != self.nreplicas && e.is_value(
                    wrong_number_chars(self.nreplicas, aspect_ratios@.len()),
                ),
                Ok((data, ops)) => {
                    &&& aspect_ratios@.len() == self.nreplicas
                    &&& data == (WilsonLoopData::AspectRatios { plaquette_type, times_run: 0 })
                    &&& plan(ops@) == loops_plan(
                        Kernel::InitializeWilsonLoopsForProbs,
                        self,
                        flattened(aspect_ratios@),
                        Buffer::AspectRatios,
                        plaquette_type,
                        (self.nreplicas * 6) as usize,
                    )
                    &&& loops_belong_to(plan(ops@), self, data, plaquette_type)
                },
            },
    {
        if aspect_ratios.len() != self.nreplicas {
            return CudaError::value_error(wrong_number(self.nreplicas, aspect_ratios.len()));
        }
        let loops = flatten(aspect_ratios.as_slice());
        let ops = self.loops_ops(
            Kernel::InitializeWilsonLoopsForProbs,
            loops,
            Buffer::AspectRatios,
            plaquette_type,
            6 * self.nreplicas,
        );
        let data = WilsonLoopData::AspectRatios { plaquette_type, times_run: 0 };
        proof {
            lemma_loops_belong_to(
                Kernel::InitializeWilsonLoopsForProbs,
                self,
                flattened(aspect_ratios@),
                Buffer::AspectRatios,
                plaquette_type,
                data,
            );
        }
        Ok((data, ops))
    }

    /// The requests that put a nearly square loop into every replica, and the measurement
    /// that [`CudaBackend::wilson_loops_ready`] starts when the device has done them.
    pub fn initialize_wilson_loops_for_probs_incremental_square(
        &self,
        increments: Vec<usize>,
        plaquette_type: u16,
    ) -> (r: Result<(WilsonLoopData, Vec<DeviceOp>), CudaError>)
        requires
            self.nreplicas * 2 <= usize::MAX,
        ensures
            match r {
                Err(e) => increments@.len() != self.nreplicas && e.is_value(
                    wrong_number_chars(self.nreplicas, increments@.len()),
                ),
                Ok((data, ops)) => {
                    &&& increments@.len() == self.nreplicas
                    &&& data == (WilsonLoopData::IncrementOnSquares {
                        plaquette_type,
                        times_run: 0,
                    })
                    &&& plan(ops@) == loops_plan(
                        Kernel::InitializeWilsonLoopsForProbsIncrementalSquare,
                        self,
                        shortened(increments@),
                        Buffer::Increments,
                        plaquette_type,
                        (self.nreplicas * 2) as usize,
                    )
                    &&& loops_belong_to(plan(ops@), self, data, plaquette_type)
                },
            },
    {
        if increments.len() != self.nreplicas {
            return CudaError::value_error(wrong_number(self.nreplicas, increments.len()));
        }
        let loops = shorten(increments.as_slice());
        let ops = self.loops_ops(
            Kernel::InitializeWilsonLoopsForProbsIncrementalSquare,
            loops,
            Buffer::Increments,
            plaquette_type,
            2 * self.nreplicas,
        );
        let data = WilsonLoopData::IncrementOnSquares { plaquette_type, times_run: 0 };
        proof {
            lemma_loops_belong_to(
                Kernel::InitializeWilsonLoopsForProbsIncrementalSquare,
                self,
                shortened(increments@),
                Buffer::Increments,
                plaquette_type,
                data,
            );
        }
        Ok((data, ops))
    }

    /// Starts or goes on with a measurement whose requests the device has done.
    pub fn wilson_loops_ready(&mut self, data: WilsonLoopData)
        requires
            old(self).wf(),
        ensures
            final(self).wf(),
            final(self).same_but_wilson(*old(self)),
            final(self).wilson_loop_probs == Some(data),
    {
        self.wilson_loop_probs = Some(data);
    }

    /// Starts the sums of probabilities anew, and the requests that clear them.
    pub fn reset_wilson_loop_transition_probs(&mut self) -> (r: Result<Vec<DeviceOp>, CudaError>)
        requires
            old(self).wf(),
        ensures
            final(self).wf(),
            final(self).same_but_wilson(*old(self)),
            match old(self).wilson_loop_probs {
                None => final(self).wilson_loop_probs is None && (r matches Err(e) && e.is_value(
                    not_initialized_chars(),
                )),
                Some(data) => final(self).wilson_loop_probs == Some(data.with_runs(0)) && (
                r matches Ok(ops) && plan(ops@) == seq![OpModel::Clear { buffer: Buffer::Probs }]),
            },
            old(self).wilson_loop_probs matches Some(data) ==> {
                &&& final(self).wilson_loop_probs matches Some(reset) && reset.runs() == 0
                    && reset.width() == data.width() && probs_launch(final(self), reset)
                    == probs_launch(old(self), data)
            },
    {
        let reset = match self.wilson_loop_probs {
            None => {
                return not_initialized();
            },
            Some(
                WilsonLoopData::AspectRatios { plaquette_type, .. },
            ) => WilsonLoopData::AspectRatios { plaquette_type, times_run: 0 },
            Some(
                WilsonLoopData::IncrementOnSquares { plaquette_type, .. },
            ) => WilsonLoopData::IncrementOnSquares { plaquette_type, times_run: 0 },
        };
        self.wilson_loop_probs = Some(reset);
        let ops = vec![DeviceOp::Clear { buffer: Buffer::Probs }];
        assert(plan(ops@) =~= seq![OpModel::Clear { buffer: Buffer::Probs }]);
        Ok(ops)
    }

    /// The requests that add up the transition probabilities, and the measurement once
    /// they are done. Until [`CudaBackend::wilson_loops_ready`] is given it there is none.
    pub fn calculate_wilson_loop_transition_probs(&mut self) -> (r: Result<
        (WilsonLoopData, Vec<DeviceOp>),
        CudaError,
    >)
        requires
            old(self).wf(),
            old(self).wilson_loop_probs matches Some(data) ==> data.runs() < usize::MAX,
        ensures
            final(self).wf(),
            final(self).same_but_wilson(*old(self)),
            final(self).wilson_loop_probs is None,
            match old(self).wilson_loop_probs {
                None => r matches Err(e) && e.is_value(not_initialized_chars()),
                Some(data) => r matches Ok((after, ops)) && after == data.with_runs(
                    (data.runs() + 1) as usize,
                ) && after == calculated(data, 1) && plan(ops@) == seq![
                    OpModel::Run(probs_launch(old(self), data)),
                ],
            },
    {
        let taken = self.wilson_loop_probs.take();
        let (kernel, loops, plaquette_type, data) = match taken {
            None => {
                return not_initialized();
            },
            Some(WilsonLoopData::AspectRatios { plaquette_type, times_run }) => (
                Kernel::WilsonLoopProbs,
                Buffer::AspectRatios,
                plaquette_type,
                WilsonLoopData::AspectRatios { plaquette_type, times_run: times_run + 1 },
            ),
            Some(WilsonLoopData::IncrementOnSquares { plaquette_type, times_run }) => (
                Kernel::WilsonLoopProbsIncrementalSquare,
                Buffer::Increments,
                plaquette_type,
                WilsonLoopData::IncrementOnSquares { plaquette_type, times_run: times_run + 1 },
            ),
        };
        let tx = (self.bounds.t << 16usize) | self.bounds.x;
        let yz = (self.bounds.y << 16usize) | self.bounds.z;
        let args = vec![
            KernelArg::Write(Buffer::State),
            KernelArg::Read(Buffer::Potential),
            KernelArg::Read(Buffer::WindingChemicalPotential),
            KernelArg::Read(Buffer::PotentialRedirect),
            KernelArg::Size(self.potential_size),
            KernelArg::Read(loops),
            KernelArg::Write(Buffer::Probs),
            KernelArg::Short(plaquette_type),
            KernelArg::Size(self.nreplicas),
            KernelArg::Size(tx),
            KernelArg::Size(yz),
        ];
        let ops = vec![DeviceOp::Run(Launch::new(kernel, args, self.nreplicas))];
        assert(ops@[0]@->Run_0.args =~= probs_launch(old(self), taken->Some_0).args);
        assert(plan(ops@) =~= seq![OpModel::Run(probs_launch(old(self), taken->Some_0))]);
        proof {
            law_calculations_are_counted(taken->Some_0, 1);
        }
        Ok((data, ops))
    }

    /// The shape of an array that can take the transition probabilities.
    pub fn get_wilson_loop_transition_probs(&self) -> (r: Result<(usize, usize), CudaError>)
        ensures
            match self.wilson_loop_probs {
                None => r matches Err(e) && e.is_value(not_initialized_chars()),
                Some(data) => r matches Ok(shape) && shape.0 == self.nreplicas && shape.1
                    == data.width(),
            },
    {
        match self.wilson_loop_probs {
            None => not_initialized(),
            Some(WilsonLoopData::AspectRatios { .. }) => Ok((self.nreplicas, 6)),
            Some(WilsonLoopData::IncrementOnSquares { .. }) => Ok((self.nreplicas, 2)),
        }
    }

    /// The requests that read out the sums of probabilities, and the measurement, whose
    /// [`WilsonLoopData::divisor`] turns them into averages. Until
    /// [`CudaBackend::wilson_loops_ready`] is given it there is none.
    pub fn get_wilson_loop_transition_probs_into(&mut self) -> (r: Result<
        (WilsonLoopData, Vec<DeviceOp>),
        CudaError,
    >)
        requires
            old(self).wf(),
            old(self).nreplicas * 6 <= usize::MAX,
        ensures
            final(self).wf(),
            final(self).same_but_wilson(*old(self)),
            final(self).wilson_loop_probs is None,
            match old(self).wilson_loop_probs {
                None => r matches Err(e) && e.is_value(not_initialized_chars()),
                Some(data) => r matches Ok((after, ops)) && after == data && plan(ops@) == seq![
                    OpModel::Download {
                        buffer: Buffer::Probs,
                        len: (old(self).nreplicas * data.width()) as usize,
                    },
                ],
            },
            old(self).wilson_loop_probs is Some ==> {
                &&& r matches Ok((after, ops)) && (plan(ops@)[0] matches OpModel::Download {
                    buffer,
                    len,
                } && buffer == Buffer::Probs && len == (if after is IncrementOnSquares {
                    2 * old(self).nreplicas
                } else {
                    6 * old(self).nreplicas
                }))
            },
    {
        let taken = self.wilson_loop_probs.take();
        let (data, width): (WilsonLoopData, usize) = match taken {
            None => {
                return not_initialized();
            },
            Some(data) => match data {
                WilsonLoopData::AspectRatios { .. } => (data, 6),
                WilsonLoopData::IncrementOnSquares { .. } => (data, 2),
            },
        };
        assert(self.nreplicas * width <= self.nreplicas * 6) by (nonlinear_arith)
            requires
                width <= 6,
        ;
        let ops = vec![
            DeviceOp::Download { buffer: Buffer::Probs, len: self.nreplicas * width },
        ];
        assert(plan(ops@) =~= seq![
            OpModel::Download {
                buffer: Buffer::Probs,
                len: (old(self).nreplicas * data.width()) as usize,
            },
        ]);
        Ok((data, ops))
    }
}

} // verus!
