//! The sweep itself: filtering a wallet listing down to its dust, grouping
//! the dust by owning address, and building one unsigned transaction per
//! group that pays the group's total, less a fixed fee, to a destination
//! address.
//!
//! Every step is a function of its inputs alone, and each executable
//! function's contract equates its result with the spec-level model below,
//! so repeated sweeps over the same listing agree.

use vstd::prelude::*;

use crate::encode::{addr_script_of, address_script, base64_encode, base64_of, psbt_bytes_of,
    psbt_serialize};
use crate::utxo::{AddressGroup, AddressGroupV, SweepError, TxInput, TxInputV, TxOutput, TxOutputV,
    UnsignedTx, UnsignedTxV, Utxo, UtxoV, SEQUENCE_RBF, TX_VERSION};

verus! {

/// The views of a listing, in listing order.
pub open spec fn views_of(us: Seq<Utxo>) -> Seq<UtxoV> {
    us.map_values(|u: Utxo| u@)
}

/// The dust set of a listing: the sub-sequence whose amounts lie strictly
/// below the threshold, in listing order.
pub open spec fn dust_spec(l: Seq<UtxoV>, threshold: u64) -> Seq<UtxoV> {
    l.filter(|u: UtxoV| u.amount < threshold)
}

/// The distinct addresses that occur in a listing, in order of first
/// occurrence; UTXOs without an address contribute none.
pub open spec fn keys_of(l: Seq<UtxoV>) -> Seq<Seq<char>>
    decreases l.len(),
{
    if l.len() == 0 {
        Seq::empty()
    } else {
        let rest = keys_of(l.drop_last());
        match l.last().address {
            Some(a) => if rest.contains(a) {
                rest
            } else {
                rest.push(a)
            },
            None => rest,
        }
    }
}

/// One address bucket: the UTXOs of the listing owned by the given address,
/// in listing order.
pub open spec fn bucket_of(l: Seq<UtxoV>, a: Seq<char>) -> Seq<UtxoV> {
    l.filter(|u: UtxoV| u.address == Some(a))
}

/// The address groups of a listing: one bucket per distinct address, in
/// order of each address's first occurrence.
pub open spec fn groups_spec(l: Seq<UtxoV>) -> Seq<AddressGroupV> {
    keys_of(l).map_values(|a: Seq<char>| AddressGroupV { address: a, utxos: bucket_of(l, a) })
}

/// The total amount carried by a sequence of UTXOs.
pub open spec fn sum_amounts(l: Seq<UtxoV>) -> int
    decreases l.len(),
{
    if l.len() == 0 {
        0
    } else {
        sum_amounts(l.drop_last()) + l.last().amount
    }
}

/// The value of the single output: the group total minus the fee, floored at
/// zero. The floor is the chosen policy for a fee at or above the total: the
/// sweep then still succeeds and the transaction pays a zero-valued output.
pub open spec fn output_value_spec(total: int, fee: u64) -> u64 {
    if total >= fee {
        (total - fee) as u64
    } else {
        0
    }
}

/// The unsigned transaction built from one group: one input per UTXO in
/// group order, each signalling replace-by-fee, and one output paying the
/// group total minus the fee to the given script.
pub open spec fn tx_spec(us: Seq<UtxoV>, fee: u64, script: Seq<u8>) -> UnsignedTxV {
    UnsignedTxV {
        version: TX_VERSION,
        lock_time: 0,
        inputs: us.map_values(
            |u: UtxoV| TxInputV { txid: u.txid, vout: u.vout, sequence: SEQUENCE_RBF },
        ),
        outputs: seq![
            TxOutputV {
                value: output_value_spec(sum_amounts(us), fee),
                script_pubkey: script,
            },
        ],
    }
}

/// The transactions built from a sequence of groups, one per group in group
/// order.
pub open spec fn txs_spec(groups: Seq<AddressGroupV>, fee: u64, script: Seq<u8>) -> Seq<UnsignedTxV> {
    groups.map_values(|g: AddressGroupV| tx_spec(g.utxos, fee, script))
}

/// What building transactions for a whole dust set returns: nothing to do is
/// a success with no transactions; otherwise the destination must resolve to
/// a script, and every group becomes one transaction.
pub open spec fn build_all_spec(d: Seq<UtxoV>, fee: u64, addr: Seq<char>) -> Result<
    Seq<UnsignedTxV>,
    SweepError,
> {
    let gs = groups_spec(d);
    if gs.len() == 0 {
        Ok(Seq::empty())
    } else {
        match addr_script_of(addr) {
            Some(script) => Ok(txs_spec(gs, fee, script)),
            None => Err(SweepError::InvalidAddress),
        }
    }
}

/// What one whole sweep returns for a given listing, threshold, fee and
/// destination: a function of those four values alone.
pub open spec fn sweep_spec(l: Seq<UtxoV>, threshold: u64, fee: u64, addr: Seq<char>) -> Result<
    Seq<UnsignedTxV>,
    SweepError,
> {
    build_all_spec(dust_spec(l, threshold), fee, addr)
}

/// Identifies dust in a wallet listing and assembles the unsigned
/// transactions that sweep it, one per owning address.
pub struct DustSweeper {
    threshold: u64,
}

impl DustSweeper {
    /// The dust threshold this sweeper was configured with.
    pub closed spec fn threshold_spec(&self) -> u64 {
        self.threshold
    }

    /// A sweeper that treats amounts strictly below `threshold` as dust.
    pub fn new(threshold: u64) -> (r: Self)
        ensures
            r.threshold_spec() == threshold,
    {
        DustSweeper { threshold }
    }

    /// The dust set of a listing: exactly the UTXOs whose amount lies
    /// strictly below the threshold, in listing order.
    pub fn get_dust_utxos(&self, utxos: &Vec<Utxo>) -> (r: Vec<Utxo>)
        ensures
            r@.map_values(|u: Utxo| u@) == dust_spec(views_of(utxos@), self.threshold_spec()),
    {
        let ghost l = views_of(utxos@);
        let mut r: Vec<Utxo> = Vec::new();
        let mut i: usize = 0;
        while i < utxos.len()
            invariant
                i <= utxos.len(),
                l == views_of(utxos@),
                r@.map_values(|u: Utxo| u@) == dust_spec(l.take(i as int), self.threshold),
            decreases utxos.len() - i,
        {
            let u = &utxos[i];
            if u.amount < self.threshold {
                r.push(u.clone());
            }
            proof {
                lemma_dust_step(l, self.threshold, i as int);
                assert(l[i as int] == utxos@[i as int]@);
                assert(r@.map_values(|u: Utxo| u@) =~= dust_spec(l.take(i + 1), self.threshold));
            }
            i += 1;
        }
        proof {
            assert(l.take(utxos@.len() as int) =~= l);
        }
        r
    }

    /// Partitions a listing into its address groups: one group per distinct
    /// address in order of first occurrence, each holding that address's
    /// UTXOs in listing order; UTXOs without an address fall in no group.
    pub fn group_utxos_by_address(&self, utxos: &Vec<Utxo>) -> (r: Vec<AddressGroup>)
        ensures
            r@.map_values(|g: AddressGroup| g@) == groups_spec(views_of(utxos@)),
    {
        let ghost l = views_of(utxos@);
        let mut keys: Vec<String> = Vec::new();
        let mut i: usize = 0;
        while i < utxos.len()
            invariant
                i <= utxos.len(),
                l == views_of(utxos@),
                keys@.map_values(|s: String| s@) == keys_of(l.take(i as int)),
            decreases utxos.len() - i,
        {
            let u = &utxos[i];
            match &u.address {
                Some(a) => {
                    if !contains_address(&keys, a) {
                        keys.push(a.clone());
                    }
                },
                None => {},
            }
            proof {
                lemma_keys_step(l, i as int);
                assert(l[i as int] == utxos@[i as int]@);
                assert(keys@.map_values(|s: String| s@) =~= keys_of(l.take(i + 1)));
            }
            i += 1;
        }
        proof {
            assert(l.take(utxos@.len() as int) =~= l);
        }
        let mut groups: Vec<AddressGroup> = Vec::new();
        let mut k: usize = 0;
        while k < keys.len()
            invariant
                k <= keys.len(),
                l == views_of(utxos@),
                keys@.map_values(|s: String| s@) == keys_of(l),
                groups@.len() == k,
                forall|m: int| 0 <= m < k ==> #[trigger] groups@[m]@ == (AddressGroupV {
                    address: keys@[m]@,
                    utxos: bucket_of(l, keys@[m]@),
                }),
            decreases keys.len() - k,
        {
            let members = bucket_members(utxos, &keys[k]);
            groups.push(AddressGroup { address: keys[k].clone(), utxos: members });
            k += 1;
        }
        proof {
            assert(groups@.map_values(|g: AddressGroup| g@) =~= groups_spec(l));
        }
        groups
    }

    /// Builds the unsigned transaction for one address group: one input per
    /// UTXO, one output paying the group total minus the fee (floored at
    /// zero) to the destination. Reports `InvalidAddress` when the
    /// destination resolves to no script, and `PsbtConstruction` for an
    /// empty group, whose transaction shape would be invalid.
    pub fn build_psbt(&self, dust_utxos: &Vec<Utxo>, fee: u64, burn_addr: &str) -> (r: Result<
        UnsignedTx,
        SweepError,
    >)
        requires
            sum_amounts(views_of(dust_utxos@)) <= u64::MAX as int,
        ensures
            r is Ok <==> (addr_script_of(burn_addr@) is Some && dust_utxos@.len() > 0),
            r matches Ok(tx) ==> (addr_script_of(burn_addr@) matches Some(sp) && tx@ == tx_spec(
                views_of(dust_utxos@),
                fee,
                sp,
            )),
            addr_script_of(burn_addr@) is None ==> r == Err::<UnsignedTx, SweepError>(
                SweepError::InvalidAddress,
            ),
            addr_script_of(burn_addr@) is Some && dust_utxos@.len() == 0 ==> r == Err::<
                UnsignedTx,
                SweepError,
            >(SweepError::PsbtConstruction),
    {
        let ghost l = views_of(dust_utxos@);
        let script = match address_script(burn_addr) {
            Some(s) => s,
            None => {
                return Err(SweepError::InvalidAddress);
            },
        };
        if dust_utxos.len() == 0 {
            return Err(SweepError::PsbtConstruction);
        }
        let mut total: u64 = 0;
        let mut i: usize = 0;
        while i < dust_utxos.len()
            invariant
                i <= dust_utxos.len(),
                l == views_of(dust_utxos@),
                sum_amounts(l) <= u64::MAX as int,
                total == sum_amounts(l.take(i as int)),
            decreases dust_utxos.len() - i,
        {
            proof {
                lemma_sum_take_step(l, i as int);
                lemma_sum_take_le(l, i as int + 1);
                assert(l[i as int] == dust_utxos@[i as int]@);
            }
            total = total + dust_utxos[i].amount;
            i += 1;
        }
        proof {
            assert(l.take(dust_utxos@.len() as int) =~= l);
        }
        let output_value: u64 = if total >= fee {
            total - fee
        } else {
            0
        };
        let mut inputs: Vec<TxInput> = Vec::new();
        let mut j: usize = 0;
        while j < dust_utxos.len()
            invariant
                j <= dust_utxos.len(),
                l == views_of(dust_utxos@),
                inputs@.len() == j,
                forall|m: int| 0 <= m < j ==> #[trigger] inputs@[m]@ == (TxInputV {
                    txid: l[m].txid,
                    vout: l[m].vout,
                    sequence: SEQUENCE_RBF,
                }),
            decreases dust_utxos.len() - j,
        {
            let u = &dust_utxos[j];
            inputs.push(TxInput { txid: u.txid, vout: u.vout, sequence: SEQUENCE_RBF });
            proof {
                assert(l[j as int] == dust_utxos@[j as int]@);
            }
            j += 1;
        }
        let mut outputs: Vec<TxOutput> = Vec::new();
        outputs.push(TxOutput { value: output_value, script_pubkey: script });
        let tx = UnsignedTx { version: TX_VERSION, lock_time: 0, inputs, outputs };
        proof {
            let spec_tx = tx_spec(l, fee, addr_script_of(burn_addr@)->Some_0);
            assert(tx@.inputs =~= spec_tx.inputs);
            assert(tx@.outputs =~= spec_tx.outputs);
        }
        Ok(tx)
    }

    /// Builds one unsigned transaction per address group of the given dust
    /// set. A dust set with no groups is a success with no transactions;
    /// otherwise a destination that resolves to no script aborts the whole
    /// batch with `InvalidAddress` before any transaction is returned.
    pub fn build_psbts_burn(&self, dust_utxos: Vec<Utxo>, fee: u64, burn_addr: &str) -> (r: Result<
        Vec<UnsignedTx>,
        SweepError,
    >)
        requires
            sum_amounts(views_of(dust_utxos@)) <= u64::MAX as int,
        ensures
            r matches Ok(txs) ==> build_all_spec(views_of(dust_utxos@), fee, burn_addr@) == Ok::<
                Seq<UnsignedTxV>,
                SweepError,
            >(txs@.map_values(|t: UnsignedTx| t@)),
            r matches Err(e) ==> build_all_spec(views_of(dust_utxos@), fee, burn_addr@) == Err::<
                Seq<UnsignedTxV>,
                SweepError,
            >(e),
    {
        let ghost d = views_of(dust_utxos@);
        let groups = self.group_utxos_by_address(&dust_utxos);
        proof {
            lemma_grouping_completeness(d);
        }
        let mut txs: Vec<UnsignedTx> = Vec::new();
        let mut k: usize = 0;
        while k < groups.len()
            invariant
                k <= groups.len(),
                d == views_of(dust_utxos@),
                sum_amounts(d) <= u64::MAX as int,
                groups@.map_values(|g: AddressGroup| g@) == groups_spec(d),
                forall|i: int| 0 <= i < groups_spec(d).len() ==> (#[trigger] groups_spec(
                    d,
                )[i]).utxos.len() > 0,
                txs@.len() == k,
                k > 0 ==> addr_script_of(burn_addr@) is Some,
                forall|m: int| 0 <= m < k ==> (addr_script_of(burn_addr@) matches Some(sp)
                    && #[trigger] txs@[m]@ == tx_spec(groups_spec(d)[m].utxos, fee, sp)),
            decreases groups.len() - k,
        {
            proof {
                assert(groups@.map_values(|g: AddressGroup| g@)[k as int] == groups@[k as int]@);
                assert(groups_spec(d)[k as int] == (AddressGroupV {
                    address: keys_of(d)[k as int],
                    utxos: bucket_of(d, keys_of(d)[k as int]),
                }));
                lemma_sum_bucket_le(d, keys_of(d)[k as int]);
            }
            match self.build_psbt(&groups[k].utxos, fee, burn_addr) {
                Ok(tx) => {
                    txs.push(tx);
                },
                Err(e) => {
                    proof {
                        assert(groups_spec(d)[k as int].utxos.len() > 0);
                        assert(e == SweepError::InvalidAddress);
                        assert(groups_spec(d).len() > 0);
                    }
                    return Err(e);
                },
            }
            k += 1;
        }
        proof {
            if groups_spec(d).len() == 0 {
                assert(txs@.map_values(|t: UnsignedTx| t@) =~= Seq::<UnsignedTxV>::empty());
            } else {
                assert(addr_script_of(burn_addr@) is Some);
                let sp = addr_script_of(burn_addr@)->Some_0;
                assert(txs@.map_values(|t: UnsignedTx| t@) =~= txs_spec(groups_spec(d), fee, sp));
            }
        }
        Ok(txs)
    }

    /// One whole sweep over a listing: filter its dust, group by address,
    /// and build one unsigned transaction per group. An empty dust set is a
    /// success with no transactions.
    pub fn sweep(&self, listing: &Vec<Utxo>, fee: u64, burn_addr: &str) -> (r: Result<
        Vec<UnsignedTx>,
        SweepError,
    >)
        requires
            sum_amounts(dust_spec(views_of(listing@), self.threshold_spec())) <= u64::MAX as int,
        ensures
            r matches Ok(txs) ==> sweep_spec(views_of(listing@), self.threshold_spec(), fee,
                burn_addr@) == Ok::<Seq<UnsignedTxV>, SweepError>(
                txs@.map_values(|t: UnsignedTx| t@),
            ),
            r matches Err(e) ==> sweep_spec(views_of(listing@), self.threshold_spec(), fee,
                burn_addr@) == Err::<Seq<UnsignedTxV>, SweepError>(e),
    {
        let dust = self.get_dust_utxos(listing);
        self.build_psbts_burn(dust, fee, burn_addr)
    }

    /// Encodes one unsigned transaction as a base64 PSBT container for
    /// transport.
    pub fn psbt_to_base64(tx: &UnsignedTx) -> (r: String)
        ensures
            r@ == base64_of(psbt_bytes_of(tx@)),
            r@.len() == 4 * ((psbt_bytes_of(tx@).len() + 2) / 3),
    {
        let bytes = psbt_serialize(tx);
        base64_encode(&bytes)
    }
}

/// Whether any string of `keys` reads as `a`.
fn contains_address(keys: &Vec<String>, a: &String) -> (r: bool)
    ensures
        r == keys@.map_values(|s: String| s@).contains(a@),
{
    let mut j: usize = 0;
    while j < keys.len()
        invariant
            j <= keys.len(),
            forall|m: int| 0 <= m < j ==> (#[trigger] keys@[m])@ != a@,
        decreases keys.len() - j,
    {
        if keys[j] == *a {
            proof {
                assert(keys@.map_values(|s: String| s@)[j as int] == a@);
            }
            return true;
        }
        j += 1;
    }
    proof {
        let mk = keys@.map_values(|s: String| s@);
        if mk.contains(a@) {
            let m = choose|m: int| 0 <= m < mk.len() && mk[m] == a@;
            assert(keys@[m]@ != a@);
            assert(false);
        }
    }
    false
}

/// The members of one address bucket, as executable values: the UTXOs of the
/// listing whose address reads as `key`, in listing order.
fn bucket_members(utxos: &Vec<Utxo>, key: &String) -> (r: Vec<Utxo>)
    ensures
        r@.map_values(|u: Utxo| u@) == bucket_of(views_of(utxos@), key@),
{
    let ghost l = views_of(utxos@);
    let mut r: Vec<Utxo> = Vec::new();
    let mut j: usize = 0;
    while j < utxos.len()
        invariant
            j <= utxos.len(),
            l == views_of(utxos@),
            r@.map_values(|u: Utxo| u@) == bucket_of(l.take(j as int), key@),
        decreases utxos.len() - j,
    {
        let u = &utxos[j];
        match &u.address {
            Some(a) => {
                if *a == *key {
                    r.push(u.clone());
                }
            },
            None => {},
        }
        proof {
            lemma_bucket_step(l, key@, j as int);
            assert(l[j as int] == utxos@[j as int]@);
            assert(r@.map_values(|u: Utxo| u@) =~= bucket_of(l.take(j + 1), key@));
        }
        j += 1;
    }
    proof {
        assert(l.take(utxos@.len() as int) =~= l);
    }
    r
}

/// One step of the dust filter: extending the listing prefix by one UTXO
/// extends its dust set by that UTXO exactly when its amount lies below the
/// threshold.
proof fn lemma_dust_step(l: Seq<UtxoV>, threshold: u64, i: int)
    requires
        0 <= i < l.len(),
    ensures
        dust_spec(l.take(i + 1), threshold) == if l[i].amount < threshold {
            dust_spec(l.take(i), threshold).push(l[i])
        } else {
            dust_spec(l.take(i), threshold)
        },
{
    reveal_with_fuel(Seq::<UtxoV>::filter, 2);
    let p1 = l.take(i + 1);
    assert(p1.drop_last() =~= l.take(i));
    assert(p1.last() == l[i]);
}

/// One step of the key scan, mirroring one unfolding of `keys_of`.
proof fn lemma_keys_step(l: Seq<UtxoV>, i: int)
    requires
        0 <= i < l.len(),
    ensures
        keys_of(l.take(i + 1)) == (match l[i].address {
            Some(a) => if keys_of(l.take(i)).contains(a) {
                keys_of(l.take(i))
            } else {
                keys_of(l.take(i)).push(a)
            },
            None => keys_of(l.take(i)),
        }),
{
    let p1 = l.take(i + 1);
    assert(p1.drop_last() =~= l.take(i));
    assert(p1.last() == l[i]);
}

/// One step of a bucket scan: extending the listing prefix by one UTXO
/// extends the bucket by that UTXO exactly when it is owned by the bucket's
/// address.
proof fn lemma_bucket_step(l: Seq<UtxoV>, a: Seq<char>, i: int)
    requires
        0 <= i < l.len(),
    ensures
        bucket_of(l.take(i + 1), a) == if l[i].address == Some(a) {
            bucket_of(l.take(i), a).push(l[i])
        } else {
            bucket_of(l.take(i), a)
        },
{
    reveal_with_fuel(Seq::<UtxoV>::filter, 2);
    let p1 = l.take(i + 1);
    assert(p1.drop_last() =~= l.take(i));
    assert(p1.last() == l[i]);
}

/// A sum over a sequence one longer grows by the new element's amount.
proof fn lemma_sum_push(s: Seq<UtxoV>, u: UtxoV)
    ensures
        sum_amounts(s.push(u)) == sum_amounts(s) + u.amount,
{
    assert(s.push(u).drop_last() =~= s);
    assert(s.push(u).last() == u);
}

/// The sum over a prefix one longer grows by the next element's amount.
proof fn lemma_sum_take_step(l: Seq<UtxoV>, i: int)
    requires
        0 <= i < l.len(),
    ensures
        sum_amounts(l.take(i + 1)) == sum_amounts(l.take(i)) + l[i].amount,
{
    let p1 = l.take(i + 1);
    assert(p1.drop_last() =~= l.take(i));
    assert(p1.last() == l[i]);
}

/// Amounts are non-negative, so a prefix sum never exceeds the whole sum.
proof fn lemma_sum_take_le(l: Seq<UtxoV>, i: int)
    requires
        0 <= i <= l.len(),
    ensures
        sum_amounts(l.take(i)) <= sum_amounts(l),
    decreases l.len() - i,
{
    if i == l.len() {
        assert(l.take(i) =~= l);
    } else {
        lemma_sum_take_step(l, i);
        lemma_sum_take_le(l, i + 1);
    }
}

/// Amounts are non-negative, so a bucket's sum never exceeds the sum over
/// the whole listing.
proof fn lemma_sum_bucket_le(l: Seq<UtxoV>, a: Seq<char>)
    ensures
        sum_amounts(bucket_of(l, a)) <= sum_amounts(l),
    decreases l.len(),
{
    reveal_with_fuel(Seq::<UtxoV>::filter, 2);
    if l.len() == 0 {
        assert(bucket_of(l, a) =~= Seq::<UtxoV>::empty());
    } else {
        let dl = l.drop_last();
        lemma_sum_bucket_le(dl, a);
        if l.last().address == Some(a) {
            lemma_sum_push(bucket_of(dl, a), l.last());
        }
    }
}

/// Membership in a pushed sequence: either it was already there, or it is
/// the new last element.
proof fn lemma_push_contains<A>(s: Seq<A>, x: A, y: A)
    ensures
        s.push(x).contains(y) <==> (s.contains(y) || x == y),
{
    if s.push(x).contains(y) {
        let i = choose|i: int| 0 <= i < s.push(x).len() && s.push(x)[i] == y;
        if i < s.len() {
            assert(s[i] == y);
        }
    }
    if s.contains(y) {
        let i = choose|i: int| 0 <= i < s.len() && s[i] == y;
        assert(s.push(x)[i] == y);
    }
    if x == y {
        assert(s.push(x)[s.len() as int] == y);
    }
}

/// A bucket holds exactly the listing's UTXOs owned by the bucket's address.
proof fn lemma_bucket_contains(l: Seq<UtxoV>, a: Seq<char>, u: UtxoV)
    ensures
        bucket_of(l, a).contains(u) <==> (l.contains(u) && u.address == Some(a)),
    decreases l.len(),
{
    reveal_with_fuel(Seq::<UtxoV>::filter, 2);
    if l.len() == 0 {
        assert(bucket_of(l, a) =~= Seq::<UtxoV>::empty());
    } else {
        let dl = l.drop_last();
        let last = l.last();
        lemma_bucket_contains(dl, a, u);
        assert(dl.push(last) =~= l);
        lemma_push_contains(dl, last, u);
        if last.address == Some(a) {
            lemma_push_contains(bucket_of(dl, a), last, u);
        }
    }
}

/// An address is among a listing's keys exactly when some UTXO of the
/// listing is owned by it.
proof fn lemma_keys_contains(l: Seq<UtxoV>, a: Seq<char>)
    ensures
        keys_of(l).contains(a) <==> (exists|j: int|
            0 <= j < l.len() && (#[trigger] l[j]).address == Some(a)),
    decreases l.len(),
{
    if l.len() == 0 {
    } else {
        let dl = l.drop_last();
        let last = l.last();
        lemma_keys_contains(dl, a);
        assert(forall|j: int| 0 <= j < dl.len() ==> dl[j] == #[trigger] l[j]);
        assert(last == l[l.len() - 1]);
        match last.address {
            Some(b) => {
                if !keys_of(dl).contains(b) {
                    lemma_push_contains(keys_of(dl), b, a);
                }
                if keys_of(l).contains(a) {
                    if a == b {
                        assert(l[l.len() - 1].address == Some(a));
                    } else {
                        let j = choose|j: int| 0 <= j < dl.len() && dl[j].address == Some(a);
                        assert(l[j].address == Some(a));
                    }
                }
                if exists|j: int| 0 <= j < l.len() && (#[trigger] l[j]).address == Some(a) {
                    let j = choose|j: int| 0 <= j < l.len() && (#[trigger] l[j]).address == Some(a);
                    if j < l.len() - 1 {
                        assert(dl[j].address == Some(a));
                    } else {
                        assert(a == b);
                    }
                }
            },
            None => {
                if exists|j: int| 0 <= j < l.len() && (#[trigger] l[j]).address == Some(a) {
                    let j = choose|j: int| 0 <= j < l.len() && (#[trigger] l[j]).address == Some(a);
                    assert(j < l.len() - 1);
                    assert(dl[j].address == Some(a));
                }
            },
        }
    }
}

/// A listing's keys list each address once.
proof fn lemma_keys_no_dup(l: Seq<UtxoV>)
    ensures
        keys_of(l).no_duplicates(),
    decreases l.len(),
{
    if l.len() == 0 {
    } else {
        let dl = l.drop_last();
        lemma_keys_no_dup(dl);
        match l.last().address {
            Some(b) => {
                if !keys_of(dl).contains(b) {
                    let s = keys_of(dl);
                    assert forall|i: int, j: int|
                        0 <= i < s.push(b).len() && 0 <= j < s.push(b).len() && i != j implies s.push(
                        b,
                    )[i] != s.push(b)[j] by {
                        if i < s.len() && j < s.len() {
                        } else if j == s.len() {
                            if s.push(b)[i] == b {
                                assert(s[i] == b);
                                assert(s.contains(b));
                            }
                        } else {
                            if s.push(b)[j] == b {
                                assert(s[j] == b);
                                assert(s.contains(b));
                            }
                        }
                    }
                }
            },
            None => {},
        }
    }
}

/// Grouping completeness: a UTXO lies in some group exactly when it lies in
/// the listing and has an address; the group it lies in is keyed by that
/// address, and is therefore unique; and every group is non-empty.
pub proof fn lemma_grouping_completeness(l: Seq<UtxoV>)
    ensures
        forall|u: UtxoV|
            (exists|i: int|
                0 <= i < groups_spec(l).len() && (#[trigger] groups_spec(l)[i]).utxos.contains(u))
                <==> (l.contains(u) && u.address is Some),
        forall|i: int, u: UtxoV|
            0 <= i < groups_spec(l).len() && #[trigger] groups_spec(l)[i].utxos.contains(u)
                ==> u.address == Some(groups_spec(l)[i].address),
        forall|i: int, j: int, u: UtxoV|
            0 <= i < groups_spec(l).len() && 0 <= j < groups_spec(l).len()
                && #[trigger] groups_spec(l)[i].utxos.contains(u)
                && #[trigger] groups_spec(l)[j].utxos.contains(u) ==> i == j,
        forall|i: int|
            0 <= i < groups_spec(l).len() ==> (#[trigger] groups_spec(l)[i]).utxos.len() > 0,
{
    let gs = groups_spec(l);
    let ks = keys_of(l);
    lemma_keys_no_dup(l);
    assert(gs.len() == ks.len());
    assert forall|i: int| 0 <= i < gs.len() implies #[trigger] gs[i] == (AddressGroupV {
        address: ks[i],
        utxos: bucket_of(l, ks[i]),
    }) by {}
    assert forall|i: int| 0 <= i < gs.len() implies (#[trigger] gs[i]).utxos.len() > 0 by {
        let a = ks[i];
        assert(ks.contains(a));
        lemma_keys_contains(l, a);
        let j = choose|j: int| 0 <= j < l.len() && (#[trigger] l[j]).address == Some(a);
        lemma_bucket_contains(l, a, l[j]);
        assert(l.contains(l[j]));
        assert(bucket_of(l, a).contains(l[j]));
        let m = choose|m: int| 0 <= m < bucket_of(l, a).len() && bucket_of(l, a)[m] == l[j];
        assert(bucket_of(l, a).len() > 0);
    }
    assert forall|i: int, u: UtxoV|
        0 <= i < gs.len() && #[trigger] gs[i].utxos.contains(u) implies u.address == Some(
        gs[i].address,
    ) by {
        lemma_bucket_contains(l, ks[i], u);
    }
    assert forall|i: int, j: int, u: UtxoV|
        0 <= i < gs.len() && 0 <= j < gs.len() && #[trigger] gs[i].utxos.contains(u)
        && #[trigger] gs[j].utxos.contains(u) implies i == j by {
        lemma_bucket_contains(l, ks[i], u);
        lemma_bucket_contains(l, ks[j], u);
        assert(u.address == Some(ks[i]) && u.address == Some(ks[j]));
        if i != j {
            assert(ks[i] != ks[j]);
            assert(false);
        }
    }
    assert forall|u: UtxoV|
        (exists|i: int| 0 <= i < gs.len() && (#[trigger] gs[i]).utxos.contains(u)) <==> (l.contains(
        u,
    ) && u.address is Some) by {
        if exists|i: int| 0 <= i < gs.len() && (#[trigger] gs[i]).utxos.contains(u) {
            let i = choose|i: int| 0 <= i < gs.len() && (#[trigger] gs[i]).utxos.contains(u);
            lemma_bucket_contains(l, ks[i], u);
        }
        if l.contains(u) && u.address is Some {
            let a = u.address->Some_0;
            lemma_keys_contains(l, a);
            let j = choose|j: int| 0 <= j < l.len() && l[j] == u;
            assert(l[j].address == Some(a));
            assert(ks.contains(a));
            let i = choose|i: int| 0 <= i < ks.len() && ks[i] == a;
            lemma_bucket_contains(l, a, u);
            assert((gs[i]).utxos.contains(u));
        }
    }
}

/// Conservation: in every transaction the builder describes, the single
/// output's value plus the fee gives back the group's total input amount —
/// except where the saturating floor engages, the fee being at or above the
/// total, in which case the output value is zero.
pub proof fn lemma_conservation(us: Seq<UtxoV>, fee: u64, script: Seq<u8>)
    requires
        sum_amounts(us) <= u64::MAX as int,
    ensures
        sum_amounts(us) >= fee ==> tx_spec(us, fee, script).outputs[0].value + fee == sum_amounts(
            us,
        ),
        sum_amounts(us) < fee ==> tx_spec(us, fee, script).outputs[0].value == 0,
{
}

/// Determinism: two sweeps over one listing with one threshold, fee and
/// destination describe the same transactions.
pub proof fn lemma_sweep_deterministic(
    r1: Result<Seq<UnsignedTxV>, SweepError>,
    r2: Result<Seq<UnsignedTxV>, SweepError>,
    l: Seq<UtxoV>,
    threshold: u64,
    fee: u64,
    addr: Seq<char>,
)
    requires
        r1 == sweep_spec(l, threshold, fee, addr),
        r2 == sweep_spec(l, threshold, fee, addr),
    ensures
        r1 == r2,
{
}

} // verus!
