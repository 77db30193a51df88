//! The snapshot of one subnet that an epoch runs on.
//!
//! A snapshot lists the subnet's participants by uid: the participant with uid
//! `i` stands at position `i`. Stake comes in two forms: the amount in tokens,
//! and the share of the subnet's total that it makes.
use crate::fixed::{Fixed32, Fixed64};
use crate::math::{inplace_normalize_64, normalized64, vec_fixed64_to_fixed32};
use crate::sparse::{rows_of, Entry};
use vstd::prelude::*;

verus! {

/// The key of an account that holds stake.
#[derive(Clone, Copy, Debug, PartialEq, Eq)]
pub struct AccountKey(pub [u8; 32]);

/// The key of the account that a participant is registered under.
#[derive(Clone, Copy, Debug, PartialEq, Eq)]
pub struct ModuleKey(pub [u8; 32]);

/// Whether two arrays of 32 bytes hold the same bytes.
pub fn same_bytes(a: &[u8; 32], b: &[u8; 32]) -> (r: bool)
    ensures
        r == (a@ == b@),
{
    let mut i: usize = 0;
    while i < 32
        invariant
            i <= 32,
            forall|k: int| 0 <= k < i ==> a@[k] == b@[k],
        decreases 32 - i,
    {
        if a[i] != b[i] {
            return false;
        }
        i += 1;
    }
    assert(a@ =~= b@);
    true
}

impl AccountKey {
    /// Whether this is the account that `module` is registered under.
    pub fn is_module(&self, module: &ModuleKey) -> (r: bool)
        ensures
            r == (self.0@ == module.0@),
    {
        same_bytes(&self.0, &module.0)
    }

    pub fn same_as(&self, other: &AccountKey) -> (r: bool)
        ensures
            r == (self.0@ == other.0@),
    {
        same_bytes(&self.0, &other.0)
    }
}

impl ModuleKey {
    pub fn same_as(&self, other: &ModuleKey) -> (r: bool)
        ensures
            r == (self.0@ == other.0@),
    {
        same_bytes(&self.0, &other.0)
    }

    /// The account that the participant is registered under.
    pub fn account(&self) -> (r: AccountKey)
        ensures
            r.0 == self.0,
    {
        AccountKey(self.0)
    }
}

/// One participant of a subnet.
#[derive(Debug)]
pub struct ModuleParams {
    pub uid: u16,
    pub last_update: u64,
    pub block_at_registration: u64,
    pub validator_permit: bool,
    /// The participant's share of the subnet's stake.
    pub stake_normalized: Fixed32,
    /// The participant's stake in tokens.
    pub stake_original: Fixed64,
    /// The bonds that the participant holds, as `(uid, share of 65535)`.
    pub bonds: Vec<(u16, u16)>,
    pub weight_unencrypted_hash: Vec<u8>,
    pub weight_encrypted: Vec<u8>,
    /// The weights that the participant has set, as `(uid, value)`.
    pub weight_unencrypted: Vec<(u16, u16)>,
}

/// The snapshot of a subnet: its participants and its settings.
#[derive(Debug)]
pub struct YumaParams {
    pub subnet_id: u16,
    /// The tokens that the epoch hands out to the participants.
    pub token_emission: u64,
    pub modules: Vec<(ModuleKey, ModuleParams)>,
    /// The share of the stake that makes a majority.
    pub kappa: Fixed32,
    pub founder_key: AccountKey,
    /// The tokens that the epoch hands to the founder on top.
    pub founder_emission: u64,
    pub current_block: u64,
    pub activity_cutoff: u64,
    pub max_allowed_validators: Option<u16>,
    /// The weight of the old bonds in the moving average, in millionths.
    pub bonds_moving_average: u64,
}

/// The participants of a snapshot, one vector per property.
#[derive(Debug)]
pub struct FlattenedModules {
    pub keys: Vec<ModuleKey>,
    pub last_update: Vec<u64>,
    pub block_at_registration: Vec<u64>,
    pub validator_permit: Vec<bool>,
    pub validator_forbid: Vec<bool>,
    pub stake_normalized: Vec<Fixed32>,
    pub stake_original: Vec<Fixed64>,
    pub bonds: Vec<Vec<Entry>>,
    pub weight_unencrypted_hash: Vec<Vec<u8>>,
    pub weight_encrypted: Vec<Vec<u8>>,
    pub weight_unencrypted: Vec<Vec<Entry>>,
}

/// A participant as plain values.
pub struct ModuleView {
    pub uid: u16,
    pub last_update: u64,
    pub block_at_registration: u64,
    pub validator_permit: bool,
    pub stake_normalized: Fixed32,
    pub stake_original: Fixed64,
    pub bonds: Seq<(u16, u16)>,
    pub weight_unencrypted_hash: Seq<u8>,
    pub weight_encrypted: Seq<u8>,
    pub weight_unencrypted: Seq<(u16, u16)>,
}

/// A snapshot as plain values.
pub struct Snapshot {
    pub subnet_id: u16,
    pub token_emission: u64,
    pub modules: Seq<(ModuleKey, ModuleView)>,
    pub kappa: Fixed32,
    pub founder_key: AccountKey,
    pub founder_emission: u64,
    pub current_block: u64,
    pub activity_cutoff: u64,
    pub max_allowed_validators: Option<u16>,
    pub bonds_moving_average: u64,
}

impl View for ModuleParams {
    type V = ModuleView;

    open spec fn view(&self) -> ModuleView {
        ModuleView {
            uid: self.uid,
            last_update: self.last_update,
            block_at_registration: self.block_at_registration,
            validator_permit: self.validator_permit,
            stake_normalized: self.stake_normalized,
            stake_original: self.stake_original,
            bonds: self.bonds@,
            weight_unencrypted_hash: self.weight_unencrypted_hash@,
            weight_encrypted: self.weight_encrypted@,
            weight_unencrypted: self.weight_unencrypted@,
        }
    }
}

/// The participants of a list as plain values.
pub open spec fn module_views(mods: Seq<(ModuleKey, ModuleParams)>) -> Seq<
    (ModuleKey, ModuleView),
> {
    Seq::new(mods.len(), |i: int| (mods[i].0, mods[i].1@))
}

impl View for YumaParams {
    type V = Snapshot;

    open spec fn view(&self) -> Snapshot {
        Snapshot {
            subnet_id: self.subnet_id,
            token_emission: self.token_emission,
            modules: module_views(self.modules@),
            kappa: self.kappa,
            founder_key: self.founder_key,
            founder_emission: self.founder_emission,
            current_block: self.current_block,
            activity_cutoff: self.activity_cutoff,
            max_allowed_validators: self.max_allowed_validators,
            bonds_moving_average: self.bonds_moving_average,
        }
    }
}

/// Whether no key occurs twice.
pub open spec fn distinct_keys(keys: Seq<ModuleKey>) -> bool {
    forall|i: int, j: int|
        0 <= i < j < keys.len() ==> (#[trigger] keys[i]).0@ != (#[trigger] keys[j]).0@
}

impl Snapshot {
    /// Whether the participants stand at their uids, no two of them under
    /// one key, and the copier that a simulation adds still has a uid left.
    pub open spec fn well_formed(self) -> bool {
        &&& self.modules.len() <= 65535
        &&& forall|i: int| 0 <= i < self.modules.len() ==> (#[trigger] self.modules[i]).1.uid == i
        &&& distinct_keys(keys_of(self.modules))
    }
}

/// Whether no key occurs twice.
pub fn has_distinct_keys(keys: &Vec<ModuleKey>) -> (r: bool)
    ensures
        r == distinct_keys(keys@),
{
    let mut j: usize = 0;
    while j < keys.len()
        invariant
            j <= keys.len(),
            forall|a: int, b: int|
                0 <= a < b < j ==> (#[trigger] keys@[a]).0@ != (#[trigger] keys@[b]).0@,
        decreases keys.len() - j,
    {
        let mut i: usize = 0;
        while i < j
            invariant
                i <= j,
                j < keys.len(),
                forall|a: int| 0 <= a < i ==> (#[trigger] keys@[a]).0@ != keys@[j as int].0@,
            decreases j - i,
        {
            if keys[i].same_as(&keys[j]) {
                return false;
            }
            i += 1;
        }
        j += 1;
    }
    true
}

/// A table of `(uid, row)` pairs as plain values.
pub open spec fn table_view(table: Seq<(u16, Vec<(u16, u16)>)>) -> Seq<(u16, Seq<(u16, u16)>)> {
    Seq::new(table.len(), |i: int| (table[i].0, table[i].1@))
}

/// What the ledger holds of a subnet, as it is read before an epoch.
#[derive(Debug)]
pub struct SubnetLedger {
    /// The key of each participant, by uid.
    pub keys: Vec<ModuleKey>,
    /// The stake delegated to each participant, by uid.
    pub stake: Vec<u64>,
    /// The stored bonds, as `(uid, row)`.
    pub bonds: Vec<(u16, Vec<(u16, u16)>)>,
    /// The stored weights, as `(uid, row)`.
    pub weights: Vec<(u16, Vec<(u16, u16)>)>,
    pub last_update: Vec<u64>,
    pub block_at_registration: Vec<u64>,
    pub validator_permits: Vec<bool>,
    pub founder: AccountKey,
    /// The majority ratio as a share of 65535.
    pub kappa: u16,
    pub current_block: u64,
    pub max_weight_age: u64,
    pub max_allowed_validators: Option<u16>,
    pub bonds_moving_average: u64,
}

/// Why a snapshot could not be put together.
#[derive(Clone, Copy, Debug, PartialEq, Eq, Structural)]
pub enum ParamsError {
    /// The subnet has more participants than there are uids.
    TooManyModules,
    /// A participant has no stake entry.
    StakeBroken,
    /// A participant has no block of last update.
    LastUpdateBroken,
    /// A participant has no block of registration.
    RegistrationBlockBroken,
    /// A participant has no validator permit entry.
    ValidatorPermitsBroken,
    /// Two participants stand under one key.
    DuplicateKeys,
}

impl ParamsError {
    /// What the error says.
    pub open spec fn message_spec(self) -> Seq<char> {
        match self {
            ParamsError::TooManyModules => "Keys storage is broken"@,
            ParamsError::StakeBroken => "Stake storage is broken"@,
            ParamsError::LastUpdateBroken => "LastUpdate storage is broken"@,
            ParamsError::RegistrationBlockBroken => "RegistrationBlock storage is broken"@,
            ParamsError::ValidatorPermitsBroken => "ValidatorPermits storage is broken"@,
            ParamsError::DuplicateKeys => "Keys storage holds a key twice"@,
        }
    }

    /// What the error says.
    pub fn message(&self) -> (r: &'static str)
        ensures
            r@ == self.message_spec(),
    {
        match self {
            ParamsError::TooManyModules => "Keys storage is broken",
            ParamsError::StakeBroken => "Stake storage is broken",
            ParamsError::LastUpdateBroken => "LastUpdate storage is broken",
            ParamsError::RegistrationBlockBroken => "RegistrationBlock storage is broken",
            ParamsError::ValidatorPermitsBroken => "ValidatorPermits storage is broken",
            ParamsError::DuplicateKeys => "Keys storage holds a key twice",
        }
    }
}

/// A copy of a vector of plain values.
pub fn copy_vec<T: Copy>(v: &Vec<T>) -> (r: Vec<T>)
    ensures
        r@ == v@,
{
    let mut out: Vec<T> = Vec::new();
    let mut k: usize = 0;
    while k < v.len()
        invariant
            k <= v.len(),
            out@ == v@.take(k as int),
        decreases v.len() - k,
    {
        out.push(v[k]);
        assert(v@.take(k + 1) =~= v@.take(k as int).push(v@[k as int]));
        k += 1;
    }
    assert(v@.take(v.len() as int) =~= v@);
    out
}

/// The row that a table of `(uid, row)` pairs holds for `uid`: that of the
/// last pair with this uid, and an empty row where there is none.
pub open spec fn row_for(table: Seq<(u16, Seq<(u16, u16)>)>, uid: int) -> Seq<(u16, u16)>
    decreases table.len(),
{
    if table.len() == 0 {
        Seq::empty()
    } else if table.last().0 == uid {
        table.last().1
    } else {
        row_for(table.drop_last(), uid)
    }
}

/// The row that a table of `(uid, row)` pairs holds for `uid`.
pub fn lookup_row(table: &Vec<(u16, Vec<(u16, u16)>)>, uid: u16) -> (r: Vec<(u16, u16)>)
    ensures
        r@ == row_for(table_view(table@), uid as int),
{
    let ghost t = table_view(table@);
    let mut k: usize = table.len();
    assert(t.take(k as int) =~= t);
    while k > 0
        invariant
            k <= table.len(),
            t == table_view(table@),
            row_for(t, uid as int) == row_for(t.take(k as int), uid as int),
        decreases k,
    {
        assert(t.take(k as int).drop_last() =~= t.take(k - 1));
        if table[k - 1].0 == uid {
            return copy_vec(&table[k - 1].1);
        }
        k -= 1;
    }
    assert(t.take(0).len() == 0);
    Vec::new()
}

/// The stake of each participant as a share of the total: the amounts as
/// fixed-point numbers, divided by their sum and narrowed.
pub open spec fn stake_shares(stake: Seq<u64>) -> Seq<Fixed32> {
    let wide = normalized64(Seq::new(stake.len(), |i: int| Fixed64::of_u64(stake[i])));
    Seq::new(stake.len(), |i: int| Fixed32::of_fixed64(wide[i]))
}

/// The majority ratio that the stored share of 65535 stands for.
pub open spec fn float_kappa(kappa: u16) -> Fixed32 {
    Fixed32::of_u16(kappa).div_or_zero(Fixed32::of_u16(u16::MAX))
}

/// The majority ratio that the stored share of 65535 stands for.
pub fn get_float_kappa(kappa: u16) -> (r: Fixed32)
    ensures
        r == float_kappa(kappa),
{
    Fixed32::from_u16(kappa).div_or_default(Fixed32::from_u16(u16::MAX))
}

/// The stake of each participant as a share of the total.
pub fn compute_stake(stake: &Vec<u64>) -> (r: Vec<Fixed32>)
    ensures
        r@ == stake_shares(stake@),
{
    let mut wide: Vec<Fixed64> = Vec::new();
    let mut i: usize = 0;
    while i < stake.len()
        invariant
            i <= stake.len(),
            wide.len() == i,
            forall|k: int| 0 <= k < i ==> #[trigger] wide@[k] == Fixed64::of_u64(stake@[k]),
        decreases stake.len() - i,
    {
        wide.push(Fixed64::saturating_from_u64(stake[i]));
        i += 1;
    }
    assert(wide@ =~= Seq::new(stake@.len(), |i: int| Fixed64::of_u64(stake@[i])));
    inplace_normalize_64(&mut wide);
    let narrow = vec_fixed64_to_fixed32(wide);
    assert(narrow@ =~= stake_shares(stake@));
    narrow
}

impl ModuleParams {
    /// A copy of the participant.
    pub fn duplicate(&self) -> (r: ModuleParams)
        ensures
            r@ == self@,
    {
        ModuleParams {
            uid: self.uid,
            last_update: self.last_update,
            block_at_registration: self.block_at_registration,
            validator_permit: self.validator_permit,
            stake_normalized: self.stake_normalized,
            stake_original: self.stake_original,
            bonds: copy_vec(&self.bonds),
            weight_unencrypted_hash: copy_vec(&self.weight_unencrypted_hash),
            weight_encrypted: copy_vec(&self.weight_encrypted),
            weight_unencrypted: copy_vec(&self.weight_unencrypted),
        }
    }
}

/// The vectors of a vector as sequences.
pub open spec fn nested<T>(v: Seq<Vec<T>>) -> Seq<Seq<T>> {
    Seq::new(v.len(), |i: int| v[i]@)
}

/// A row of `(uid, share of 65535)` pairs with each share as a fixed-point
/// integer.
pub open spec fn fixed_row(row: Seq<(u16, u16)>) -> Seq<Entry> {
    Seq::new(row.len(), |k: int| (row[k].0, Fixed32::of_u16(row[k].1)))
}

/// A row of `(uid, share of 65535)` pairs with each share as a fixed-point
/// integer.
pub fn to_fixed_row(row: &Vec<(u16, u16)>) -> (r: Vec<Entry>)
    ensures
        r@ == fixed_row(row@),
{
    let mut out: Vec<Entry> = Vec::new();
    let mut k: usize = 0;
    while k < row.len()
        invariant
            k <= row.len(),
            out.len() == k,
            forall|q: int| 0 <= q < k ==> #[trigger] out@[q] == fixed_row(row@)[q],
        decreases row.len() - k,
    {
        out.push((row[k].0, Fixed32::from_u16(row[k].1)));
        k += 1;
    }
    assert(out@ =~= fixed_row(row@));
    out
}

/// What a snapshot cannot be made for, if anything: more participants than
/// uids, a stake vector of another length than the keys, a participant
/// without a block of last update, a block of registration or a permit
/// entry, or a key that occurs twice. Of several participants with something
/// missing the one with the lowest uid decides, and of its entries the first
/// in this order.
pub open spec fn ledger_error(ledger: SubnetLedger) -> Option<ParamsError> {
    let n = ledger.keys@.len();
    let lu = ledger.last_update@.len();
    let reg = ledger.block_at_registration@.len();
    let vp = ledger.validator_permits@.len();
    if n > 65535 {
        Some(ParamsError::TooManyModules)
    } else if ledger.stake@.len() != n {
        Some(ParamsError::StakeBroken)
    } else if lu < n && lu <= reg && lu <= vp {
        Some(ParamsError::LastUpdateBroken)
    } else if reg < n && reg <= vp {
        Some(ParamsError::RegistrationBlockBroken)
    } else if vp < n {
        Some(ParamsError::ValidatorPermitsBroken)
    } else if !distinct_keys(ledger.keys@) {
        Some(ParamsError::DuplicateKeys)
    } else {
        None
    }
}

/// The participant with uid `i` as the ledger has it.
pub open spec fn ledger_module(ledger: SubnetLedger, i: int, m: ModuleView) -> bool {
    &&& m.uid == i
    &&& m.last_update == ledger.last_update@[i]
    &&& m.block_at_registration == ledger.block_at_registration@[i]
    &&& m.validator_permit == ledger.validator_permits@[i]
    &&& m.stake_normalized == stake_shares(ledger.stake@)[i]
    &&& m.stake_original == Fixed64::of_u64(ledger.stake@[i])
    &&& m.bonds == row_for(table_view(ledger.bonds@), i)
    &&& m.weight_unencrypted_hash == Seq::<u8>::empty()
    &&& m.weight_encrypted == Seq::<u8>::empty()
    &&& m.weight_unencrypted == row_for(table_view(ledger.weights@), i)
}

impl YumaParams {
    /// Puts the snapshot of a subnet together from what the ledger holds of
    /// it. `token_emission` goes to the participants and `founder_emission`
    /// to the founder. The shares of the stake sum to one at most, as long
    /// as the stake in tokens sums to less than `2^63`.
    pub fn new(
        subnet_id: u16,
        token_emission: u64,
        founder_emission: u64,
        ledger: &SubnetLedger,
    ) -> (r: Result<YumaParams, ParamsError>)
        ensures
            match r {
                Ok(p) => {
                    &&& ledger_error(*ledger) is None
                    &&& p@.well_formed()
                    &&& p.subnet_id == subnet_id
                    &&& p.token_emission == token_emission
                    &&& p.founder_emission == founder_emission
                    &&& p.founder_key == ledger.founder
                    &&& p.kappa == float_kappa(ledger.kappa)
                    &&& p.current_block == ledger.current_block
                    &&& p.activity_cutoff == ledger.max_weight_age
                    &&& p.max_allowed_validators == ledger.max_allowed_validators
                    &&& p.bonds_moving_average == ledger.bonds_moving_average
                    &&& p.modules@.len() == ledger.keys@.len()
                    &&& stakes_of(p@.modules) == stake_shares(ledger.stake@)
                    &&& crate::yuma::total(ledger.stake@) <= i64::MAX
                        ==> crate::conservation::at_most_one(stakes_of(p@.modules))
                    &&& forall|i: int|
                        0 <= i < p.modules@.len() ==> (#[trigger] p.modules@[i]).0
                            == ledger.keys@[i] && ledger_module(*ledger, i, p.modules@[i].1@)
                },
                Err(e) => ledger_error(*ledger) == Some(e),
            },
    {
        let n = ledger.keys.len();
        if n > 65535 {
            return Err(ParamsError::TooManyModules);
        }
        if ledger.stake.len() != n {
            return Err(ParamsError::StakeBroken);
        }
        let stake = compute_stake(&ledger.stake);
        let mut modules: Vec<(ModuleKey, ModuleParams)> = Vec::new();
        let mut i: usize = 0;
        while i < n
            invariant
                i <= n,
                n == ledger.keys@.len(),
                n <= 65535,
                ledger.stake@.len() == n,
                stake@ == stake_shares(ledger.stake@),
                modules.len() == i,
                i <= ledger.last_update@.len(),
                i <= ledger.block_at_registration@.len(),
                i <= ledger.validator_permits@.len(),
                forall|k: int|
                    0 <= k < i ==> (#[trigger] modules@[k]).0 == ledger.keys@[k] && ledger_module(
                        *ledger,
                        k,
                        modules@[k].1@,
                    ) && modules@[k].1.uid == k,
            decreases n - i,
        {
            if i >= ledger.last_update.len() {
                return Err(ParamsError::LastUpdateBroken);
            }
            if i >= ledger.block_at_registration.len() {
                return Err(ParamsError::RegistrationBlockBroken);
            }
            if i >= ledger.validator_permits.len() {
                return Err(ParamsError::ValidatorPermitsBroken);
            }
            let module = ModuleParams {
                uid: i as u16,
                last_update: ledger.last_update[i],
                block_at_registration: ledger.block_at_registration[i],
                validator_permit: ledger.validator_permits[i],
                stake_normalized: stake[i],
                stake_original: Fixed64::saturating_from_u64(ledger.stake[i]),
                bonds: lookup_row(&ledger.bonds, i as u16),
                weight_unencrypted_hash: Vec::new(),
                weight_encrypted: Vec::new(),
                weight_unencrypted: lookup_row(&ledger.weights, i as u16),
            };
            modules.push((ledger.keys[i], module));
            i += 1;
        }
        if !has_distinct_keys(&ledger.keys) {
            return Err(ParamsError::DuplicateKeys);
        }
        proof {
            assert(keys_of(module_views(modules@)) =~= ledger.keys@);
            assert(stakes_of(module_views(modules@)) =~= stake_shares(ledger.stake@));
            if crate::yuma::total(ledger.stake@) <= i64::MAX {
                crate::conservation::lemma_stake_shares_at_most_one(ledger.stake@);
            }
        }
        Ok(
            YumaParams {
                subnet_id,
                token_emission,
                modules,
                kappa: get_float_kappa(ledger.kappa),
                founder_key: ledger.founder,
                founder_emission,
                current_block: ledger.current_block,
                activity_cutoff: ledger.max_weight_age,
                max_allowed_validators: ledger.max_allowed_validators,
                bonds_moving_average: ledger.bonds_moving_average,
            },
        )
    }

    /// A copy of the snapshot.
    pub fn duplicate(&self) -> (r: YumaParams)
        ensures
            r@ == self@,
    {
        let mut modules: Vec<(ModuleKey, ModuleParams)> = Vec::new();
        let mut i: usize = 0;
        while i < self.modules.len()
            invariant
                i <= self.modules.len(),
                modules.len() == i,
                forall|k: int|
                    0 <= k < i ==> (#[trigger] modules@[k]).0 == self.modules@[k].0
                        && modules@[k].1@ == self.modules@[k].1@,
            decreases self.modules.len() - i,
        {
            modules.push((self.modules[i].0, self.modules[i].1.duplicate()));
            i += 1;
        }
        assert(module_views(modules@) =~= module_views(self.modules@));
        YumaParams {
            subnet_id: self.subnet_id,
            token_emission: self.token_emission,
            modules,
            kappa: self.kappa,
            founder_key: self.founder_key,
            founder_emission: self.founder_emission,
            current_block: self.current_block,
            activity_cutoff: self.activity_cutoff,
            max_allowed_validators: self.max_allowed_validators,
            bonds_moving_average: self.bonds_moving_average,
        }
    }
}

/// The key of each participant.
pub open spec fn keys_of(mods: Seq<(ModuleKey, ModuleView)>) -> Seq<ModuleKey> {
    Seq::new(mods.len(), |i: int| mods[i].0)
}

/// The block of each participant's last update.
pub open spec fn last_updates_of(mods: Seq<(ModuleKey, ModuleView)>) -> Seq<u64> {
    Seq::new(mods.len(), |i: int| mods[i].1.last_update)
}

/// The block of each participant's registration.
pub open spec fn registrations_of(mods: Seq<(ModuleKey, ModuleView)>) -> Seq<u64> {
    Seq::new(mods.len(), |i: int| mods[i].1.block_at_registration)
}

/// Whether each participant holds a validator permit.
pub open spec fn permits_of(mods: Seq<(ModuleKey, ModuleView)>) -> Seq<bool> {
    Seq::new(mods.len(), |i: int| mods[i].1.validator_permit)
}

/// Whether each participant lacks a validator permit.
pub open spec fn forbids_of(mods: Seq<(ModuleKey, ModuleView)>) -> Seq<bool> {
    Seq::new(mods.len(), |i: int| !mods[i].1.validator_permit)
}

/// Each participant's share of the stake.
pub open spec fn stakes_of(mods: Seq<(ModuleKey, ModuleView)>) -> Seq<Fixed32> {
    Seq::new(mods.len(), |i: int| mods[i].1.stake_normalized)
}

/// Each participant's stake in tokens.
pub open spec fn original_stakes_of(mods: Seq<(ModuleKey, ModuleView)>) -> Seq<Fixed64> {
    Seq::new(mods.len(), |i: int| mods[i].1.stake_original)
}

/// Each participant's bonds, as fixed-point integers.
pub open spec fn bond_rows_of(mods: Seq<(ModuleKey, ModuleView)>) -> Seq<Seq<Entry>> {
    Seq::new(mods.len(), |i: int| fixed_row(mods[i].1.bonds))
}

/// Each participant's weights, as fixed-point integers.
pub open spec fn weight_rows_of(mods: Seq<(ModuleKey, ModuleView)>) -> Seq<Seq<Entry>> {
    Seq::new(mods.len(), |i: int| fixed_row(mods[i].1.weight_unencrypted))
}

/// The hash of each participant's weights.
pub open spec fn weight_hashes_of(mods: Seq<(ModuleKey, ModuleView)>) -> Seq<Seq<u8>> {
    Seq::new(mods.len(), |i: int| mods[i].1.weight_unencrypted_hash)
}

/// Each participant's encrypted weights.
pub open spec fn weight_ciphers_of(mods: Seq<(ModuleKey, ModuleView)>) -> Seq<Seq<u8>> {
    Seq::new(mods.len(), |i: int| mods[i].1.weight_encrypted)
}

/// Whether `f` holds the participants `mods`, property by property.
pub open spec fn flattened(mods: Seq<(ModuleKey, ModuleView)>, f: FlattenedModules) -> bool {
    &&& f.keys@ == keys_of(mods)
    &&& f.last_update@ == last_updates_of(mods)
    &&& f.block_at_registration@ == registrations_of(mods)
    &&& f.validator_permit@ == permits_of(mods)
    &&& f.validator_forbid@ == forbids_of(mods)
    &&& f.stake_normalized@ == stakes_of(mods)
    &&& f.stake_original@ == original_stakes_of(mods)
    &&& rows_of(f.bonds@) == bond_rows_of(mods)
    &&& nested(f.weight_unencrypted_hash@) == weight_hashes_of(mods)
    &&& nested(f.weight_encrypted@) == weight_ciphers_of(mods)
    &&& rows_of(f.weight_unencrypted@) == weight_rows_of(mods)
}

impl FlattenedModules {
    /// Takes the participants apart into one vector per property, in the
    /// order in which they are listed.
    pub fn from(modules: &Vec<(ModuleKey, ModuleParams)>) -> (r: FlattenedModules)
        ensures
            flattened(module_views(modules@), r),
    {
        let n = modules.len();
        let mut keys: Vec<ModuleKey> = Vec::new();
        let mut last_update: Vec<u64> = Vec::new();
        let mut block_at_registration: Vec<u64> = Vec::new();
        let mut validator_permit: Vec<bool> = Vec::new();
        let mut validator_forbid: Vec<bool> = Vec::new();
        let mut stake_normalized: Vec<Fixed32> = Vec::new();
        let mut stake_original: Vec<Fixed64> = Vec::new();
        let mut bonds: Vec<Vec<Entry>> = Vec::new();
        let mut weight_unencrypted_hash: Vec<Vec<u8>> = Vec::new();
        let mut weight_encrypted: Vec<Vec<u8>> = Vec::new();
        let mut weight_unencrypted: Vec<Vec<Entry>> = Vec::new();
        let mut i: usize = 0;
        while i < n
            invariant
                i <= n,
                n == modules.len(),
                keys.len() == i,
                last_update.len() == i,
                block_at_registration.len() == i,
                validator_permit.len() == i,
                validator_forbid.len() == i,
                stake_normalized.len() == i,
                stake_original.len() == i,
                bonds.len() == i,
                weight_unencrypted_hash.len() == i,
                weight_encrypted.len() == i,
                weight_unencrypted.len() == i,
                forall|k: int| 0 <= k < i ==> #[trigger] keys@[k] == modules@[k].0,
                forall|k: int|
                    0 <= k < i ==> #[trigger] last_update@[k] == modules@[k].1.last_update,
                forall|k: int|
                    0 <= k < i ==> #[trigger] block_at_registration@[k]
                        == modules@[k].1.block_at_registration,
                forall|k: int|
                    0 <= k < i ==> #[trigger] validator_permit@[k]
                        == modules@[k].1.validator_permit,
                forall|k: int|
                    0 <= k < i ==> #[trigger] validator_forbid@[k]
                        == !modules@[k].1.validator_permit,
                forall|k: int|
                    0 <= k < i ==> #[trigger] stake_normalized@[k]
                        == modules@[k].1.stake_normalized,
                forall|k: int|
                    0 <= k < i ==> #[trigger] stake_original@[k] == modules@[k].1.stake_original,
                forall|k: int|
                    0 <= k < i ==> (#[trigger] bonds@[k])@ == fixed_row(modules@[k].1.bonds@),
                forall|k: int|
                    0 <= k < i ==> (#[trigger] weight_unencrypted_hash@[k])@
                        == modules@[k].1.weight_unencrypted_hash@,
                forall|k: int|
                    0 <= k < i ==> (#[trigger] weight_encrypted@[k])@
                        == modules@[k].1.weight_encrypted@,
                forall|k: int|
                    0 <= k < i ==> (#[trigger] weight_unencrypted@[k])@ == fixed_row(
                        modules@[k].1.weight_unencrypted@,
                    ),
            decreases n - i,
        {
            let (key, module) = &modules[i];
            keys.push(*key);
            last_update.push(module.last_update);
            block_at_registration.push(module.block_at_registration);
            validator_permit.push(module.validator_permit);
            validator_forbid.push(!module.validator_permit);
            stake_normalized.push(module.stake_normalized);
            stake_original.push(module.stake_original);
            bonds.push(to_fixed_row(&module.bonds));
            weight_unencrypted_hash.push(copy_vec(&module.weight_unencrypted_hash));
            weight_encrypted.push(copy_vec(&module.weight_encrypted));
            weight_unencrypted.push(to_fixed_row(&module.weight_unencrypted));
            i += 1;
        }
        let f = FlattenedModules {
            keys,
            last_update,
            block_at_registration,
            validator_permit,
            validator_forbid,
            stake_normalized,
            stake_original,
            bonds,
            weight_unencrypted_hash,
            weight_encrypted,
            weight_unencrypted,
        };
        proof {
            let mods = module_views(modules@);
            assert(f.keys@ =~= keys_of(mods));
            assert(f.last_update@ =~= last_updates_of(mods));
            assert(f.block_at_registration@ =~= registrations_of(mods));
            assert(f.validator_permit@ =~= permits_of(mods));
            assert(f.validator_forbid@ =~= forbids_of(mods));
            assert(f.stake_normalized@ =~= stakes_of(mods));
            assert(f.stake_original@ =~= original_stakes_of(mods));
            assert(rows_of(f.bonds@) =~= bond_rows_of(mods));
            assert(nested(f.weight_unencrypted_hash@) =~= weight_hashes_of(mods));
            assert(nested(f.weight_encrypted@) =~= weight_ciphers_of(mods));
            assert(rows_of(f.weight_unencrypted@) =~= weight_rows_of(mods));
        }
        f
    }
}

} // verus!
