//! Counts of pairs of plaquettes by distance.

use crate::arrays::{product, shape_valid, CountArray};
use crate::backend::{told_of_lattice, CudaBackend, PlaquettePairData};
use crate::device::{
    begins_with, covers, launch_model, law_launch_is_what_was_asked, names_just, plan, Buffer,
    DeviceOp, Kernel, KernelArg, Launch, LaunchModel, OpModel,
};
use crate::error::{decimal, decimal_chars, CudaError};
use crate::measure::lemma_product_push;
use vstd::prelude::*;

verus! {

/// The message about another distance.
pub open spec fn other_distance_chars(used: u32, asked: u32) -> Seq<char> {
    "Existing buffer used max_distance_from_root "@ + decimal_chars(used as nat)
        + " but was asked for "@ + decimal_chars(asked as nat)
}

/// The message about another largest value.
pub open spec fn other_value_chars(used: u32, asked: u32) -> Seq<char> {
    "Existing buffer used max_absolute_integer "@ + decimal_chars(used as nat)
        + " but was asked for "@ + decimal_chars(asked as nat)
}

/// The axes of the table of pairs: replica, distance, direction and both values.
pub open spec fn pair_dims(n: usize, pairs: PlaquettePairData) -> Seq<usize> {
    seq![
        n,
        pairs.max_distance as usize,
        6,
        pairs.values() as usize,
        pairs.values() as usize,
    ]
}

/// The buffer of counts has as many elements as the table that is made of it.
pub proof fn law_pair_counts_fill_the_table(n: usize, pairs: PlaquettePairData)
    requires
        pairs.fits(n),
    ensures
        product(pair_dims(n, pairs)) == pairs.len(n),
{
    let d = pairs.max_distance as usize;
    let k = pairs.values() as usize;
    let v = pairs.values();
    assert(v <= v * v) by (nonlinear_arith)
        requires
            v >= 1,
    ;
    let d0 = Seq::<usize>::empty();
    assert(product(d0) == 1);
    lemma_product_push(d0, n);
    lemma_product_push(seq![n], d);
    lemma_product_push(seq![n, d], 6);
    lemma_product_push(seq![n, d, 6], k);
    lemma_product_push(seq![n, d, 6, k], k);
    assert(d0.push(n) =~= seq![n]);
    assert(seq![n].push(d) =~= seq![n, d]);
    assert(seq![n, d].push(6) =~= seq![n, d, 6]);
    assert(seq![n, d, 6].push(k) =~= seq![n, d, 6, k]);
    assert(seq![n, d, 6, k].push(k) =~= pair_dims(n, pairs));
    let p = n * d * 6;
    assert(p * v * v == p * (v * v)) by (nonlinear_arith);
}

/// Counting pairs fills the table: it has a count for every replica, distance and direction
/// and for every two values up to the largest, and the launch that counts has a thread for
/// every replica, distance and direction, and is told the distance, the largest value and the
/// plane, in this order.
pub proof fn law_pairs_are_counted_whole(
    state: &CudaBackend,
    pairs: PlaquettePairData,
    plaquette_type: u32,
)
    requires
        pairs.fits(state.nreplicas),
    ensures
        ({
            let l = state.pair_launch(pairs, plaquette_type);
            let rows = state.nreplicas * pairs.max_distance * 6;
            let values = 2 * pairs.max_abs_value + 1;
            let dims = pair_dims(state.nreplicas, pairs);
            &&& l.kernel == Kernel::CountPlaquettePairsWithIncreasingZ
            &&& rows <= u32::MAX ==> covers(l, rows)
            &&& pairs.len(state.nreplicas) == rows * (values * values)
            &&& dims.len() == 5
            &&& dims[0] == state.nreplicas
            &&& dims[1] == pairs.max_distance
            &&& dims[2] == 6
            &&& dims[3] == values
            &&& dims[4] == values
            &&& names_just(l.args, set![Buffer::State, Buffer::PairCounts])
            &&& l.args.len() == 10
            &&& begins_with(
                l.args,
                seq![
                    KernelArg::Write(Buffer::State),
                    KernelArg::Write(Buffer::PairCounts),
                    KernelArg::Word(pairs.max_distance),
                    KernelArg::Word(pairs.max_abs_value),
                    KernelArg::Word(plaquette_type),
                ],
            )
            &&& told_of_lattice(l.args, state)
        }),
{
    let l = state.pair_launch(pairs, plaquette_type);
    let rows = state.nreplicas * pairs.max_distance * 6;
    assert(0 <= rows) by (nonlinear_arith)
        requires
            rows == state.nreplicas * pairs.max_distance * 6,
    ;
    law_launch_is_what_was_asked(l.kernel, l.args, (rows as usize) as u32);
    let v = pairs.values();
    assert(v <= v * v) by (nonlinear_arith)
        requires
            v >= 1,
    ;
    assert(l.args[0] == KernelArg::Write(Buffer::State));
    assert(l.args[1] == KernelArg::Write(Buffer::PairCounts));
}

/// A table whose counts can be numbered with 32 bits can be made.
pub proof fn law_small_pair_tables_fit(n: usize, pairs: PlaquettePairData)
    requires
        n > 0,
        pairs.max_distance > 0,
        (n * pairs.max_distance * 6) * ((2 * pairs.max_abs_value + 1) * (2 * pairs.max_abs_value
            + 1)) <= u32::MAX,
    ensures
        pairs.fits(n),
{
    let rows = n * pairs.max_distance * 6;
    let v = 2 * pairs.max_abs_value + 1;
    assert(1 <= rows) by (nonlinear_arith)
        requires
            rows == n * pairs.max_distance * 6,
            n > 0,
            pairs.max_distance > 0,
    ;
    assert(1 <= v * v) by (nonlinear_arith)
        requires
            v >= 1,
    ;
    assert(rows <= rows * (v * v) && v * v <= rows * (v * v)) by (nonlinear_arith)
        requires
            1 <= rows,
            1 <= v * v,
    ;
}

impl PlaquettePairData {
    /// Whether a table with these limits can be made for `n` replicas.
    pub fn can_hold(&self, n: usize) -> (r: bool)
        ensures
            r == self.fits(n),
    {
        let values: u64 = 2 * (self.max_abs_value as u64) + 1;
        let ghost (m, d, v) = (n as int, self.max_distance as int, self.values());
        assert(n * (self.max_distance as usize) <= m * d * 6) by (nonlinear_arith)
            requires
                m == n,
                d == self.max_distance,
        ;
        match (values.checked_mul(values), n.checked_mul(self.max_distance as usize)) {
            (Some(pairs), Some(rows)) => {
                if pairs > u32::MAX as u64 {
                    return false;
                }
                match rows.checked_mul(6) {
                    Some(threads) => threads.checked_mul(pairs as usize).is_some(),
                    None => false,
                }
            },
            _ => false,
        }
    }
}

impl CudaBackend {
    /// Nothing but the counts of pairs differs from `before`.
    pub open spec fn same_but_pairs(&self, before: CudaBackend) -> bool {
        *self == (CudaBackend {
            plaquette_pair_accumulator: self.plaquette_pair_accumulator,
            ..before
        })
    }

    /// The launch that counts pairs.
    pub open spec fn pair_launch(
        &self,
        pairs: PlaquettePairData,
        plaquette_type: u32,
    ) -> LaunchModel {
        launch_model(
            Kernel::CountPlaquettePairsWithIncreasingZ,
            seq![
                KernelArg::Write(Buffer::State),
                KernelArg::Write(Buffer::PairCounts),
                KernelArg::Word(pairs.max_distance),
                KernelArg::Word(pairs.max_abs_value),
                KernelArg::Word(plaquette_type),
            ] + self.site_args(),
            ((self.nreplicas * pairs.max_distance * 6) as usize) as u32,
        )
    }

    /// The requests that make a table of pairs, if there is none yet, and the table that
    /// [`CudaBackend::plaquette_pair_counts_ready`] takes over when the device has done
    /// them.
    pub fn reserve_plaquette_pair_counts(
        &self,
        max_absolute_integer: u32,
        max_distance_from_root: u32,
    ) -> (r: Option<(PlaquettePairData, Vec<DeviceOp>)>)
        requires
            (PlaquettePairData {
                max_abs_value: max_absolute_integer,
                max_distance: max_distance_from_root,
            }).fits(self.nreplicas),
        ensures
            match self.plaquette_pair_accumulator {
                Some(_) => r is None,
                None => {
                    &&& r matches Some((pairs, ops))
                    &&& pairs == (PlaquettePairData {
                        max_abs_value: max_absolute_integer,
                        max_distance: max_distance_from_root,
                    })
                    &&& plan(ops@) == seq![
                        OpModel::AllocZeros {
                            buffer: Buffer::PairCounts,
                            len: pairs.len(self.nreplicas) as usize,
                        },
                    ]
                    &&& plan(ops@)[0] matches OpModel::AllocZeros { buffer, len } && buffer
                        == Buffer::PairCounts && len == product(pair_dims(self.nreplicas, pairs))
                },
            },
    {
        if self.plaquette_pair_accumulator.is_some() {
            return None;
        }
        let pairs = PlaquettePairData {
            max_abs_value: max_absolute_integer,
            max_distance: max_distance_from_root,
        };
        let len = self.pair_counts_len(&pairs);
        proof {
            law_pair_counts_fill_the_table(self.nreplicas, pairs);
        }
        let ops = vec![DeviceOp::AllocZeros { buffer: Buffer::PairCounts, len }];
        assert(plan(ops@) =~= seq![
            OpModel::AllocZeros {
                buffer: Buffer::PairCounts,
                len: pairs.len(self.nreplicas) as usize,
            },
        ]);
        Some((pairs, ops))
    }

    fn pair_counts_len(&self, pairs: &PlaquettePairData) -> (len: usize)
        requires
            pairs.fits(self.nreplicas),
        ensures
            len == pairs.len(self.nreplicas),
    {
        proof {
            let v = pairs.values();
            assert(v <= v * v) by (nonlinear_arith)
                requires
                    v >= 1,
            ;
            let (n, d) = (self.nreplicas as int, pairs.max_distance as int);
            assert(n * d <= n * d * 6) by (nonlinear_arith)
                requires
                    n >= 0,
                    d >= 0,
            ;
        }
        let values = 2 * pairs.max_abs_value + 1;
        let num_pairs = values * values;
        let num_threads = self.nreplicas * (pairs.max_distance as usize) * 6;
        num_threads * (num_pairs as usize)
    }

    /// Takes over a table of pairs that the device holds.
    pub fn plaquette_pair_counts_ready(&mut self, pairs: PlaquettePairData)
        requires
            old(self).wf(),
            pairs.fits(old(self).nreplicas),
        ensures
            final(self).wf(),
            final(self).same_but_pairs(*old(self)),
            final(self).plaquette_pair_accumulator == Some(pairs),
    {
        self.plaquette_pair_accumulator = Some(pairs);
    }

    /// The requests that count the pairs of plaquettes of the present state.
    ///
    /// The distance and the largest value have to be those of the table.
    pub fn accumulate_plaquette_pair_counts(
        &self,
        max_absolute_integer: u32,
        max_distance_from_root: u32,
        plaquette_type: u32,
    ) -> (r: Result<Vec<DeviceOp>, CudaError>)
        requires
            self.wf(),
            self.plaquette_pair_accumulator is Some,
        ensures
            ({
                let pairs = self.plaquette_pair_accumulator->Some_0;
                match r {
                    Err(e) => {
                        ||| pairs.max_distance != max_distance_from_root && e.is_value(
                            other_distance_chars(pairs.max_distance, max_distance_from_root),
                        )
                        ||| pairs.max_distance == max_distance_from_root && pairs.max_abs_value
                            != max_absolute_integer && e.is_value(
                            other_value_chars(pairs.max_abs_value, max_absolute_integer),
                        )
                    },
                    Ok(ops) => {
                        &&& pairs.max_distance == max_distance_from_root
                        &&& pairs.max_abs_value == max_absolute_integer
                        &&& plan(ops@) == seq![
                            OpModel::Run(self.pair_launch(pairs, plaquette_type)),
                        ]
                    },
                }
            }),
    {
        let pairs = self.plaquette_pair_accumulator.unwrap();
        if pairs.max_distance != max_distance_from_root {
            let mut msg = String::from_str("Existing buffer used max_distance_from_root ");
            msg.append(decimal(pairs.max_distance as usize).as_str());
            msg.append(" but was asked for ");
            msg.append(decimal(max_distance_from_root as usize).as_str());
            return CudaError::value_error(msg);
        }
        if pairs.max_abs_value != max_absolute_integer {
            let mut msg = String::from_str("Existing buffer used max_absolute_integer ");
            msg.append(decimal(pairs.max_abs_value as usize).as_str());
            msg.append(" but was asked for ");
            msg.append(decimal(max_absolute_integer as usize).as_str());
            return CudaError::value_error(msg);
        }
        proof {
            let (n, d) = (self.nreplicas as int, max_distance_from_root as int);
            assert(n * d <= n * d * 6) by (nonlinear_arith)
                requires
                    n >= 0,
                    d >= 0,
            ;
        }
        let num_threads = self.nreplicas * (max_distance_from_root as usize) * 6;
        let args = self.with_sites(
            vec![
                KernelArg::Write(Buffer::State),
                KernelArg::Write(Buffer::PairCounts),
                KernelArg::Word(max_distance_from_root),
                KernelArg::Word(max_absolute_integer),
                KernelArg::Word(plaquette_type),
            ],
        );
        let ops = vec![
            DeviceOp::Run(
                Launch::new(Kernel::CountPlaquettePairsWithIncreasingZ, args, num_threads),
            ),
        ];
        assert(plan(ops@) =~= seq![OpModel::Run(self.pair_launch(pairs, plaquette_type))]);
        Ok(ops)
    }

    /// The requests that read the table of pairs, if there is one.
    pub fn fetch_plaquette_pair_counts(&self) -> (r: Option<Vec<DeviceOp>>)
        requires
            self.wf(),
        ensures
            match self.plaquette_pair_accumulator {
                None => r is None,
                Some(pairs) => r matches Some(ops) && plan(ops@) == seq![
                    OpModel::Download {
                        buffer: Buffer::PairCounts,
                        len: pairs.len(self.nreplicas) as usize,
                    },
                ] && (plan(ops@)[0] matches OpModel::Download { buffer, len } && buffer
                    == Buffer::PairCounts && len == product(pair_dims(self.nreplicas, pairs))),
            },
    {
        match self.plaquette_pair_accumulator {
            None => None,
            Some(pairs) => {
                let len = self.pair_counts_len(&pairs);
                proof {
                    law_pair_counts_fill_the_table(self.nreplicas, pairs);
                }
                let ops = vec![DeviceOp::Download { buffer: Buffer::PairCounts, len }];
                assert(plan(ops@) =~= seq![
                    OpModel::Download {
                        buffer: Buffer::PairCounts,
                        len: pairs.len(self.nreplicas) as usize,
                    },
                ]);
                Some(ops)
            },
        }
    }

    /// The counts of pairs by state, distance, direction and both values, if there is a
    /// table and the counts fill it.
    pub fn get_plaquette_pair_counts(&self, output: Vec<u32>) -> (r: Option<CountArray>)
        requires
            self.wf(),
        ensures
            match self.plaquette_pair_accumulator {
                None => r is None,
                Some(pairs) => {
                    &&& r is Some <==> (shape_valid(pair_dims(self.nreplicas, pairs))
                        && output@.len() == pairs.len(self.nreplicas))
                    &&& r matches Some(a) ==> a.dims() == pair_dims(self.nreplicas, pairs)
                        && a.elems() == output@
                },
            },
    {
        match self.plaquette_pair_accumulator {
            None => None,
            Some(pairs) => {
                proof {
                    let v = pairs.values();
                    assert(v <= v * v) by (nonlinear_arith)
                        requires
                            v >= 1,
                    ;
                    law_pair_counts_fill_the_table(self.nreplicas, pairs);
                }
                let num_ints = 2 * (pairs.max_abs_value as usize) + 1;
                let shape: [usize; 5] = [
                    self.nreplicas,
                    pairs.max_distance as usize,
                    6,
                    num_ints,
                    num_ints,
                ];
                assert(shape@ =~= pair_dims(self.nreplicas, pairs));
                CountArray::from_shape_vec(shape.as_slice(), output)
            },
        }
    }

    /// Forgets the table of pairs.
    pub fn clear_plaquette_pair_counts(&mut self)
        requires
            old(self).wf(),
        ensures
            final(self).wf(),
            final(self).same_but_pairs(*old(self)),
            final(self).plaquette_pair_accumulator is None,
    {
        self.plaquette_pair_accumulator = None;
    }
}

} // verus!
