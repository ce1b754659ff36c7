//! Android update_engine payloads: framing, and validation of the manifest semantics that a
//! replaceable protobuf provider decodes.
use vstd::prelude::*;
use crate::android::{
    lemma_run_steps_err, run_steps, be32, component_views, components_backed_by, lemma_push_backed, push_component, push_spec, AndroidComponent, AndroidComponentKind,
    AndroidComponentView, AndroidLimits, C03Error,
};
use crate::bytes::{be_value, read_be_u64};
use crate::digest::{sha256_hex, sha256_hex_of};
use crate::partition_map::{push_string, string_views};
use crate::text::owned;

verus! {

/// One OTA operation data-blob range, relative to the payload data start.
#[derive(Debug, Clone, Copy, PartialEq, Eq, Structural)]
pub struct OtaOperationRange {
    /// Relative data offset.
    pub data_offset: u64,
    /// Data length.
    pub data_length: u64,
}

/// One partition update declared by an OTA manifest provider.
#[derive(Debug)]
pub struct OtaPartitionUpdate {
    /// Partition name.
    pub name: String,
    /// Optional exact target partition size.
    pub new_size: Option<u64>,
    /// Operation blobs referenced by this partition update.
    pub operations: Vec<OtaOperationRange>,
}

/// Abstract value of a partition update.
pub ghost struct OtaPartitionView {
    /// Partition name.
    pub name: Seq<char>,
    /// Optional target size.
    pub new_size: Option<u64>,
    /// Operation blobs.
    pub operations: Seq<OtaOperationRange>,
}

impl View for OtaPartitionUpdate {
    type V = OtaPartitionView;

    open spec fn view(&self) -> OtaPartitionView {
        OtaPartitionView { name: self.name@, new_size: self.new_size, operations: self.operations@ }
    }
}

/// One dynamic group declared by an OTA manifest provider.
#[derive(Debug)]
pub struct OtaDynamicGroup {
    /// Group name.
    pub name: String,
    /// Optional maximum size.
    pub maximum_size: Option<u64>,
    /// Partition names assigned to the group.
    pub partition_names: Vec<String>,
}

/// Abstract value of an OTA dynamic group.
pub ghost struct OtaGroupView {
    /// Group name.
    pub name: Seq<char>,
    /// Optional maximum size.
    pub maximum_size: Option<u64>,
    /// Member partition names.
    pub partition_names: Seq<Seq<char>>,
}

impl View for OtaDynamicGroup {
    type V = OtaGroupView;

    open spec fn view(&self) -> OtaGroupView {
        OtaGroupView {
            name: self.name@,
            maximum_size: self.maximum_size,
            partition_names: string_views(self.partition_names@),
        }
    }
}

/// Views of partition updates.
pub open spec fn ota_partition_views(s: Seq<OtaPartitionUpdate>) -> Seq<OtaPartitionView> {
    s.map_values(|p: OtaPartitionUpdate| p@)
}

/// Views of OTA dynamic groups.
pub open spec fn ota_group_views(s: Seq<OtaDynamicGroup>) -> Seq<OtaGroupView> {
    s.map_values(|g: OtaDynamicGroup| g@)
}

/// Bounded protobuf semantics returned by a replaceable OTA manifest provider.
#[derive(Debug)]
pub struct OtaManifestObservation {
    /// Manifest block size.
    pub block_size: u32,
    /// Partition updates.
    pub partitions: Vec<OtaPartitionUpdate>,
    /// Dynamic partition groups.
    pub dynamic_groups: Vec<OtaDynamicGroup>,
    /// Whether the OTA is partial.
    pub partial_update: bool,
    /// Provider claim that all supported manifest semantics were decoded.
    pub complete_claim: bool,
    /// Explicit unsupported or partial semantics.
    pub limitations: Vec<String>,
}

/// Abstract value of a manifest observation.
pub ghost struct OtaObservationView {
    /// Block size.
    pub block_size: u32,
    /// Partition updates.
    pub partitions: Seq<OtaPartitionView>,
    /// Dynamic groups.
    pub dynamic_groups: Seq<OtaGroupView>,
    /// Partial-update flag.
    pub partial_update: bool,
    /// Completeness claim.
    pub complete_claim: bool,
    /// Limitations.
    pub limitations: Seq<Seq<char>>,
}

impl View for OtaManifestObservation {
    type V = OtaObservationView;

    open spec fn view(&self) -> OtaObservationView {
        OtaObservationView {
            block_size: self.block_size,
            partitions: ota_partition_views(self.partitions@),
            dynamic_groups: ota_group_views(self.dynamic_groups@),
            partial_update: self.partial_update,
            complete_claim: self.complete_claim,
            limitations: string_views(self.limitations@),
        }
    }
}

/// Replaceable protobuf OTA manifest decoder. Each method's answers are described by a
/// relation the implementation may state; by default any answer is allowed.
pub trait OtaManifestProvider {
    /// Whether `id` is an alias this provider may report.
    open spec fn id_post(&self, id: Seq<char>) -> bool {
        true
    }

    /// Whether `r` is a result this provider may give for decoding `manifest_bytes` of payload
    /// major version `major_version` under `limits`.
    open spec fn decode_post(
        &self,
        manifest_bytes: Seq<u8>,
        major_version: u64,
        limits: AndroidLimits,
        r: Result<OtaManifestObservation, String>,
    ) -> bool {
        true
    }

    /// Stable backend-local provider alias.
    fn provider_id(&self) -> (r: &str)
        ensures
            self.id_post(r@),
    ;

    /// Decode exact immutable manifest protobuf bytes; a provider-specific message on failure.
    fn decode_manifest(
        &self,
        manifest_bytes: &[u8],
        major_version: u64,
        limits: AndroidLimits,
    ) -> (r: Result<OtaManifestObservation, String>)
        ensures
            self.decode_post(manifest_bytes@, major_version, limits, r),
    ;
}

/// UTF-8 bytes of a text.
pub open spec fn text_bytes(s: Seq<char>) -> Seq<u8> {
    vstd::utf8::encode_utf8(s)
}

/// A bounded non-empty string.
pub open spec fn string_ok(s: Seq<char>, limits: AndroidLimits) -> bool {
    text_bytes(s).len() > 0 && text_bytes(s).len() <= limits.max_string_bytes
}

/// A byte allowed in Android names: ASCII letter, digit, `_`, `-` or `.`.
pub open spec fn android_name_byte(b: u8) -> bool {
    (48 <= b <= 57) || (65 <= b <= 90) || (97 <= b <= 122) || b == 95 || b == 45 || b == 46
}

/// A bounded Android partition or group name.
pub open spec fn android_name_ok(s: Seq<char>, limits: AndroidLimits) -> bool {
    string_ok(s, limits) && forall|i: int| 0 <= i < text_bytes(s).len() ==> android_name_byte(#[trigger] text_bytes(s)[i])
}

/// Reject an empty or over-long string.
pub fn validate_string(value: &str, limits: AndroidLimits) -> (r: Result<(), C03Error>)
    ensures
        r is Ok <==> string_ok(value@, limits),
        r matches Err(e) ==> e == C03Error::InvalidString,
{
    let b = value.as_bytes();
    if b.len() == 0 || b.len() > limits.max_string_bytes {
        return Err(C03Error::InvalidString);
    }
    Ok(())
}

/// Reject a name that is not a bounded run of ASCII letters, digits, `_`, `-` and `.`.
pub fn validate_android_name(value: &str, limits: AndroidLimits) -> (r: Result<(), C03Error>)
    ensures
        r is Ok <==> android_name_ok(value@, limits),
        r matches Err(e) ==> e == C03Error::InvalidString,
{
    validate_string(value, limits)?;
    let b = value.as_bytes();
    let mut i: usize = 0;
    while i < b.len()
        invariant
            i <= b@.len(),
            b@ == text_bytes(value@),
            forall|j: int| 0 <= j < i ==> android_name_byte(#[trigger] b@[j]),
        decreases b.len() - i,
    {
        let c = b[i];
        if !((48 <= c && c <= 57) || (65 <= c && c <= 90) || (97 <= c && c <= 122) || c == 95 || c == 45 || c == 46) {
            assert(!android_name_byte(b@[i as int]));
            return Err(C03Error::InvalidString);
        }
        i = i + 1;
    }
    Ok(())
}

/// Every limitation is a bounded non-empty string.
pub open spec fn limitations_ok(values: Seq<Seq<char>>, limits: AndroidLimits) -> bool {
    forall|i: int| 0 <= i < values.len() ==> string_ok(#[trigger] values[i], limits)
}

/// Reject any empty or over-long limitation.
pub fn validate_limitations(values: &Vec<String>, limits: AndroidLimits) -> (r: Result<(), C03Error>)
    ensures
        r is Ok <==> limitations_ok(string_views(values@), limits),
        r matches Err(e) ==> e == C03Error::InvalidString,
{
    let ghost sv = string_views(values@);
    let mut i: usize = 0;
    while i < values.len()
        invariant
            i <= values@.len(),
            sv == string_views(values@),
            forall|j: int| 0 <= j < i ==> string_ok(#[trigger] sv[j], limits),
        decreases values.len() - i,
    {
        assert(sv[i as int] == values@[i as int]@);
        if validate_string(values[i].as_str(), limits).is_err() {
            return Err(C03Error::InvalidString);
        }
        i = i + 1;
    }
    Ok(())
}

/// Operation `k` of a partition update lies inside the payload data.
pub open spec fn operation_step(ops: Seq<OtaOperationRange>, payload: int, u: (), k: int) -> Result<(), C03Error> {
    let end = ops[k].data_offset + ops[k].data_length;
    if end > u64::MAX {
        Err(C03Error::AccountingOverflow)
    } else if end > payload {
        Err(C03Error::InvalidOtaObservation)
    } else {
        Ok(())
    }
}

/// The operation step over `ops`.
pub open spec fn operation_stepper(ops: Seq<OtaOperationRange>, payload: int) -> spec_fn((), int) -> Result<(), C03Error> {
    |u: (), k: int| operation_step(ops, payload, u, k)
}

/// Some earlier partition update has the name of update `i`.
pub open spec fn earlier_partition_named(ps: Seq<OtaPartitionView>, i: int, name: Seq<char>) -> bool {
    exists|j: int| 0 <= j < i && (#[trigger] ps[j]).name == name
}

/// Check partition update `i`, given the operations counted so far.
pub open spec fn ota_partition_step(obs: OtaObservationView, payload: int, limits: AndroidLimits, count: int, i: int) -> Result<
    int,
    C03Error,
> {
    let p = obs.partitions[i];
    if !android_name_ok(p.name, limits) {
        Err(C03Error::InvalidString)
    } else if earlier_partition_named(obs.partitions, i, p.name) {
        Err(C03Error::InvalidOtaObservation)
    } else if count + p.operations.len() > usize::MAX {
        Err(C03Error::AccountingOverflow)
    } else if count + p.operations.len() > limits.max_ota_operations {
        Err(C03Error::TooManyOperations)
    } else {
        match run_steps((), operation_stepper(p.operations, payload), p.operations.len()) {
            Err(e) => Err(e),
            Ok(_) => Ok(count + p.operations.len()),
        }
    }
}

/// The partition-update step.
pub open spec fn ota_partition_stepper(obs: OtaObservationView, payload: int, limits: AndroidLimits) -> spec_fn(int, int) -> Result<
    int,
    C03Error,
> {
    |count: int, i: int| ota_partition_step(obs, payload, limits, count, i)
}

/// Some partition update is named `name`.
pub open spec fn partition_named(ps: Seq<OtaPartitionView>, name: Seq<char>) -> bool {
    exists|j: int| 0 <= j < ps.len() && (#[trigger] ps[j]).name == name
}

/// Member `k` of a group is a valid name of a declared partition update.
pub open spec fn member_step(obs: OtaObservationView, members: Seq<Seq<char>>, limits: AndroidLimits, u: (), k: int) -> Result<
    (),
    C03Error,
> {
    if !android_name_ok(members[k], limits) {
        Err(C03Error::InvalidString)
    } else if !partition_named(obs.partitions, members[k]) {
        Err(C03Error::InvalidOtaObservation)
    } else {
        Ok(())
    }
}

/// The member step over `members`.
pub open spec fn member_stepper(obs: OtaObservationView, members: Seq<Seq<char>>, limits: AndroidLimits) -> spec_fn((), int) -> Result<
    (),
    C03Error,
> {
    |u: (), k: int| member_step(obs, members, limits, u, k)
}

/// Some earlier group has the name of group `i`.
pub open spec fn earlier_group_named(gs: Seq<OtaGroupView>, i: int, name: Seq<char>) -> bool {
    exists|j: int| 0 <= j < i && (#[trigger] gs[j]).name == name
}

/// Check group `i`.
pub open spec fn ota_group_step(obs: OtaObservationView, limits: AndroidLimits, u: (), i: int) -> Result<(), C03Error> {
    let g = obs.dynamic_groups[i];
    if !android_name_ok(g.name, limits) {
        Err(C03Error::InvalidString)
    } else if earlier_group_named(obs.dynamic_groups, i, g.name) {
        Err(C03Error::InvalidOtaObservation)
    } else {
        run_steps((), member_stepper(obs, g.partition_names, limits), g.partition_names.len())
    }
}

/// The group step.
pub open spec fn ota_group_stepper(obs: OtaObservationView, limits: AndroidLimits) -> spec_fn((), int) -> Result<(), C03Error> {
    |u: (), i: int| ota_group_step(obs, limits, u, i)
}

/// Whether a provider observation is structurally consistent with a payload of `payload` data
/// bytes, or the first inconsistency.
pub open spec fn ota_observation_spec(obs: OtaObservationView, payload: int, limits: AndroidLimits) -> Result<(), C03Error> {
    if obs.block_size == 0 || obs.partitions.len() > limits.max_ota_partitions || obs.dynamic_groups.len()
        > limits.max_dynamic_groups {
        Err(C03Error::InvalidOtaObservation)
    } else if !limitations_ok(obs.limitations, limits) {
        Err(C03Error::InvalidString)
    } else {
        match run_steps(0int, ota_partition_stepper(obs, payload, limits), obs.partitions.len()) {
            Err(e) => Err(e),
            Ok(_) => match run_steps((), ota_group_stepper(obs, limits), obs.dynamic_groups.len()) {
                Err(e) => Err(e),
                Ok(_) => if obs.complete_claim && obs.limitations.len() > 0 {
                    Err(C03Error::InvalidOtaObservation)
                } else {
                    Ok(())
                },
            },
        }
    }
}

fn check_operations(ops: &Vec<OtaOperationRange>, payload: u64) -> (r: Result<(), C03Error>)
    ensures
        r == run_steps((), operation_stepper(ops@, payload as int), ops@.len()),
{
    let ghost step = operation_stepper(ops@, payload as int);
    let mut k: usize = 0;
    while k < ops.len()
        invariant
            k <= ops@.len(),
            step == operation_stepper(ops@, payload as int),
            run_steps((), step, k as nat) == Ok::<(), C03Error>(()),
        decreases ops.len() - k,
    {
        let op = ops[k];
        assert(run_steps((), step, (k + 1) as nat) == operation_step(ops@, payload as int, (), k as int));
        if op.data_offset > u64::MAX - op.data_length {
            proof { lemma_run_steps_err((), step, (k + 1) as nat, ops@.len()); }
            return Err(C03Error::AccountingOverflow);
        }
        if op.data_offset + op.data_length > payload {
            proof { lemma_run_steps_err((), step, (k + 1) as nat, ops@.len()); }
            return Err(C03Error::InvalidOtaObservation);
        }
        k = k + 1;
    }
    Ok(())
}

fn earlier_partition_exec(ps: &Vec<OtaPartitionUpdate>, i: usize) -> (r: bool)
    requires
        i <= ps@.len(),
    ensures
        r == earlier_partition_named(ota_partition_views(ps@), i as int, ps@[i as int].name@) || (i == ps@.len() && r == false),
{
    if i == ps.len() {
        return false;
    }
    let ghost pv = ota_partition_views(ps@);
    let mut j: usize = 0;
    while j < i
        invariant
            j <= i < ps@.len(),
            pv == ota_partition_views(ps@),
            forall|k: int| 0 <= k < j ==> (#[trigger] pv[k]).name != ps@[i as int].name@,
        decreases i - j,
    {
        assert(pv[j as int] == ps@[j as int]@);
        if ps[j].name == ps[i].name {
            return true;
        }
        j = j + 1;
    }
    false
}

fn partition_named_exec(ps: &Vec<OtaPartitionUpdate>, name: &String) -> (r: bool)
    ensures
        r == partition_named(ota_partition_views(ps@), name@),
{
    let ghost pv = ota_partition_views(ps@);
    let mut j: usize = 0;
    while j < ps.len()
        invariant
            j <= ps@.len(),
            pv == ota_partition_views(ps@),
            forall|k: int| 0 <= k < j ==> (#[trigger] pv[k]).name != name@,
        decreases ps.len() - j,
    {
        assert(pv[j as int] == ps@[j as int]@);
        if ps[j].name == *name {
            return true;
        }
        j = j + 1;
    }
    false
}

fn earlier_group_exec(gs: &Vec<OtaDynamicGroup>, i: usize) -> (r: bool)
    requires
        i < gs@.len(),
    ensures
        r == earlier_group_named(ota_group_views(gs@), i as int, gs@[i as int].name@),
{
    let ghost gv = ota_group_views(gs@);
    let mut j: usize = 0;
    while j < i
        invariant
            j <= i < gs@.len(),
            gv == ota_group_views(gs@),
            forall|k: int| 0 <= k < j ==> (#[trigger] gv[k]).name != gs@[i as int].name@,
        decreases i - j,
    {
        assert(gv[j as int] == gs@[j as int]@);
        if gs[j].name == gs[i].name {
            return true;
        }
        j = j + 1;
    }
    false
}

fn check_members(obs: &OtaManifestObservation, members: &Vec<String>, limits: AndroidLimits) -> (r: Result<(), C03Error>)
    ensures
        r == run_steps((), member_stepper(obs@, string_views(members@), limits), members@.len()),
{
    let ghost step = member_stepper(obs@, string_views(members@), limits);
    let mut k: usize = 0;
    while k < members.len()
        invariant
            k <= members@.len(),
            step == member_stepper(obs@, string_views(members@), limits),
            run_steps((), step, k as nat) == Ok::<(), C03Error>(()),
        decreases members.len() - k,
    {
        assert(run_steps((), step, (k + 1) as nat) == member_step(obs@, string_views(members@), limits, (), k as int));
        assert(string_views(members@)[k as int] == members@[k as int]@);
        if validate_android_name(members[k].as_str(), limits).is_err() {
            proof { lemma_run_steps_err((), step, (k + 1) as nat, members@.len()); }
            return Err(C03Error::InvalidString);
        }
        if !partition_named_exec(&obs.partitions, &members[k]) {
            proof { lemma_run_steps_err((), step, (k + 1) as nat, members@.len()); }
            return Err(C03Error::InvalidOtaObservation);
        }
        k = k + 1;
    }
    Ok(())
}

/// Check that a provider observation is structurally consistent with `payload_data_size` bytes
/// of payload data: bounded counts, valid unique names, operation ranges inside the payload data,
/// group members that name declared partitions, and no limitations under a completeness claim.
pub fn validate_ota_observation(observation: &OtaManifestObservation, payload_data_size: u64, limits: AndroidLimits) -> (r:
    Result<(), C03Error>)
    ensures
        r == ota_observation_spec(observation@, payload_data_size as int, limits),
{
    let ghost obs = observation@;
    if observation.block_size == 0 || observation.partitions.len() > limits.max_ota_partitions
        || observation.dynamic_groups.len() > limits.max_dynamic_groups {
        return Err(C03Error::InvalidOtaObservation);
    }
    validate_limitations(&observation.limitations, limits)?;
    let ghost pstep = ota_partition_stepper(obs, payload_data_size as int, limits);
    let mut count: usize = 0;
    let mut i: usize = 0;
    while i < observation.partitions.len()
        invariant
            i <= obs.partitions.len(),
            obs == observation@,
            !(obs.block_size == 0 || obs.partitions.len() > limits.max_ota_partitions || obs.dynamic_groups.len()
                > limits.max_dynamic_groups),
            limitations_ok(obs.limitations, limits),
            pstep == ota_partition_stepper(obs, payload_data_size as int, limits),
            run_steps(0int, pstep, i as nat) == Ok::<int, C03Error>(count as int),
        decreases obs.partitions.len() - i,
    {
        let p = &observation.partitions[i];
        assert(obs.partitions[i as int] == p@);
        assert(run_steps(0int, pstep, (i + 1) as nat) == ota_partition_step(obs, payload_data_size as int, limits, count as int, i as int));
        if validate_android_name(p.name.as_str(), limits).is_err() {
            proof { lemma_run_steps_err(0int, pstep, (i + 1) as nat, obs.partitions.len()); }
            return Err(C03Error::InvalidString);
        }
        if earlier_partition_exec(&observation.partitions, i) {
            proof { lemma_run_steps_err(0int, pstep, (i + 1) as nat, obs.partitions.len()); }
            return Err(C03Error::InvalidOtaObservation);
        }
        if count > usize::MAX - p.operations.len() {
            proof { lemma_run_steps_err(0int, pstep, (i + 1) as nat, obs.partitions.len()); }
            return Err(C03Error::AccountingOverflow);
        }
        if count + p.operations.len() > limits.max_ota_operations {
            proof { lemma_run_steps_err(0int, pstep, (i + 1) as nat, obs.partitions.len()); }
            return Err(C03Error::TooManyOperations);
        }
        match check_operations(&p.operations, payload_data_size) {
            Ok(_) => {},
            Err(e) => {
                proof { lemma_run_steps_err(0int, pstep, (i + 1) as nat, obs.partitions.len()); }
                return Err(e);
            },
        }
        count = count + p.operations.len();
        i = i + 1;
    }
    let ghost gstep = ota_group_stepper(obs, limits);
    let mut i: usize = 0;
    while i < observation.dynamic_groups.len()
        invariant
            i <= obs.dynamic_groups.len(),
            obs == observation@,
            !(obs.block_size == 0 || obs.partitions.len() > limits.max_ota_partitions || obs.dynamic_groups.len()
                > limits.max_dynamic_groups),
            limitations_ok(obs.limitations, limits),
            run_steps(0int, ota_partition_stepper(obs, payload_data_size as int, limits), obs.partitions.len()) is Ok,
            gstep == ota_group_stepper(obs, limits),
            run_steps((), gstep, i as nat) == Ok::<(), C03Error>(()),
        decreases obs.dynamic_groups.len() - i,
    {
        let g = &observation.dynamic_groups[i];
        assert(obs.dynamic_groups[i as int] == g@);
        assert(run_steps((), gstep, (i + 1) as nat) == ota_group_step(obs, limits, (), i as int));
        if validate_android_name(g.name.as_str(), limits).is_err() {
            proof { lemma_run_steps_err((), gstep, (i + 1) as nat, obs.dynamic_groups.len()); }
            return Err(C03Error::InvalidString);
        }
        if earlier_group_exec(&observation.dynamic_groups, i) {
            proof { lemma_run_steps_err((), gstep, (i + 1) as nat, obs.dynamic_groups.len()); }
            return Err(C03Error::InvalidOtaObservation);
        }
        match check_members(observation, &g.partition_names, limits) {
            Ok(_) => {},
            Err(e) => {
                proof { lemma_run_steps_err((), gstep, (i + 1) as nat, obs.dynamic_groups.len()); }
                return Err(e);
            },
        }
        i = i + 1;
    }
    if observation.complete_claim && observation.limitations.len() > 0 {
        return Err(C03Error::InvalidOtaObservation);
    }
    Ok(())
}

/// Validated OTA manifest projection.
#[derive(Debug)]
pub struct AndroidOtaManifest {
    /// Payload major version.
    pub major_version: u64,
    /// Exact manifest SHA-256.
    pub manifest_sha256: String,
    /// Backend-local provider alias.
    pub provider_alias: String,
    /// Manifest block size.
    pub block_size: u32,
    /// Partition updates.
    pub partitions: Vec<OtaPartitionUpdate>,
    /// Dynamic groups.
    pub dynamic_groups: Vec<OtaDynamicGroup>,
    /// Partial-update flag.
    pub partial_update: bool,
    /// Explicit limitations.
    pub limitations: Vec<String>,
}

/// Abstract value of a validated manifest.
pub ghost struct OtaManifestView {
    /// Payload major version.
    pub major_version: u64,
    /// Manifest digest text.
    pub manifest_sha256: Seq<char>,
    /// Provider alias.
    pub provider_alias: Seq<char>,
    /// Block size.
    pub block_size: u32,
    /// Partition updates.
    pub partitions: Seq<OtaPartitionView>,
    /// Dynamic groups.
    pub dynamic_groups: Seq<OtaGroupView>,
    /// Partial-update flag.
    pub partial_update: bool,
    /// Limitations.
    pub limitations: Seq<Seq<char>>,
}

impl View for AndroidOtaManifest {
    type V = OtaManifestView;

    open spec fn view(&self) -> OtaManifestView {
        OtaManifestView {
            major_version: self.major_version,
            manifest_sha256: self.manifest_sha256@,
            provider_alias: self.provider_alias@,
            block_size: self.block_size,
            partitions: ota_partition_views(self.partitions@),
            dynamic_groups: ota_group_views(self.dynamic_groups@),
            partial_update: self.partial_update,
            limitations: string_views(self.limitations@),
        }
    }
}

/// Where the parts of an OTA payload lie, and its components.
pub ghost struct OtaFrame {
    /// Header, manifest, metadata-signature and payload-data components.
    pub components: Seq<AndroidComponentView>,
    /// Payload major version.
    pub major: int,
    /// Manifest start.
    pub manifest_start: int,
    /// Manifest end.
    pub manifest_end: int,
    /// End of the metadata signature, where payload data starts.
    pub signature_end: int,
}

/// The framing of an OTA payload, or why it is rejected.
#[verifier::opaque]
pub open spec fn ota_frame_spec(src: Seq<u8>, limits: AndroidLimits) -> Result<OtaFrame, C03Error> {
    let len = src.len() as int;
    if len < 20 {
        Err(C03Error::Malformed("OTA payload header is truncated"))
    } else {
        let major = be_value(src, 4, 8);
        let msize = be_value(src, 12, 8);
        if major != 1 && major != 2 {
            Err(C03Error::Malformed("unsupported OTA payload major version"))
        } else if msize > limits.max_manifest_bytes {
            Err(C03Error::ManifestTooLarge)
        } else if major == 2 && len < 24 {
            Err(C03Error::Malformed("OTA v2 header is truncated"))
        } else {
            let moff = if major == 2 { 24int } else { 20int };
            let sig = if major == 2 { be_value(src, 20, 4) } else { 0int };
            let mend = moff + msize;
            let send = mend + sig;
            if mend > u64::MAX || send > u64::MAX {
                Err(C03Error::AccountingOverflow)
            } else if send > len {
                Err(C03Error::Malformed("OTA metadata exceeds source"))
            } else {
                match push_spec(src, limits, Seq::empty(), AndroidComponentKind::Header, "ota.header"@, 0, moff) {
                    Err(e) => Err(e),
                    Ok(c0) => match push_spec(src, limits, c0, AndroidComponentKind::OtaManifest, "ota.manifest"@, moff, mend) {
                        Err(e) => Err(e),
                        Ok(c1) => match (if sig > 0 {
                            push_spec(src, limits, c1, AndroidComponentKind::OtaMetadataSignature, "ota.metadata_signature"@, mend, send)
                        } else {
                            Ok(c1)
                        }) {
                            Err(e) => Err(e),
                            Ok(c2) => match (if send < len {
                                push_spec(src, limits, c2, AndroidComponentKind::OtaPayloadData, "ota.payload_data"@, send, len)
                            } else {
                                Ok(c2)
                            }) {
                                Err(e) => Err(e),
                                Ok(c3) => Ok(OtaFrame { components: c3, major, manifest_start: moff, manifest_end: mend, signature_end: send }),
                            },
                        },
                    },
                }
            }
        }
    }
}

/// The limitation every OTA report carries.
pub open spec fn ota_trust_note() -> Seq<char> {
    "OTA applicability/signature trust is not established by static payload parsing"@
}

/// The limitation recorded when no manifest provider is supplied.
pub open spec fn no_provider_note() -> Seq<char> {
    "no OTA manifest protobuf Provider was supplied"@
}

/// The manifest projection and report limitations built from a provider's answer, or why the
/// answer is rejected.
#[verifier::opaque]
pub open spec fn ota_manifest_spec(
    src: Seq<u8>,
    major: int,
    manifest_start: int,
    manifest_end: int,
    signature_end: int,
    provider_id: Seq<char>,
    decoded: Result<OtaManifestObservation, String>,
    limits: AndroidLimits,
) -> Result<(OtaManifestView, Seq<Seq<char>>), C03Error> {
    if !string_ok(provider_id, limits) {
        Err(C03Error::InvalidString)
    } else {
        match decoded {
            Err(m) => Err(C03Error::OtaProvider(m)),
            Ok(o) => {
                let obs = o@;
                match ota_observation_spec(obs, src.len() - signature_end, limits) {
                    Err(e) => Err(e),
                    Ok(_) => Ok((
                        OtaManifestView {
                            major_version: major as u64,
                            manifest_sha256: sha256_hex_of(src.subrange(manifest_start, manifest_end)),
                            provider_alias: provider_id,
                            block_size: obs.block_size,
                            partitions: obs.partitions,
                            dynamic_groups: obs.dynamic_groups,
                            partial_update: obs.partial_update,
                            limitations: obs.limitations,
                        },
                        seq![ota_trust_note()] + obs.limitations,
                    )),
                }
            },
        }
    }
}

/// Components, manifest projection and limitations of an OTA payload, given the provider's
/// alias and answer when a provider is supplied.
pub open spec fn ota_spec(
    src: Seq<u8>,
    limits: AndroidLimits,
    answer: Option<(Seq<char>, Result<OtaManifestObservation, String>)>,
) -> Result<(Seq<AndroidComponentView>, Option<OtaManifestView>, Seq<Seq<char>>), C03Error> {
    match ota_frame_spec(src, limits) {
        Err(e) => Err(e),
        Ok(f) => match answer {
            None => Ok((f.components, None, seq![ota_trust_note(), no_provider_note()])),
            Some((id, decoded)) => match ota_manifest_spec(src, f.major, f.manifest_start, f.manifest_end, f.signature_end, id, decoded, limits) {
                Err(e) => Err(e),
                Ok((m, lim)) => Ok((f.components, Some(m), lim)),
            },
        },
    }
}

/// Every component of an OTA payload layout is backed by the source.
pub proof fn lemma_ota_backed(
    src: Seq<u8>,
    limits: AndroidLimits,
    answer: Option<(Seq<char>, Result<OtaManifestObservation, String>)>,
)
    requires
        src.len() <= u64::MAX,
    ensures
        ota_spec(src, limits, answer) matches Ok(x) ==> components_backed_by(src, x.0),
{
    broadcast use lemma_push_backed;

    reveal(ota_frame_spec);
    assert(components_backed_by(src, Seq::<AndroidComponentView>::empty()));
}

/// The answer is one the provider may give, for the calls inspecting a well-framed payload
/// makes: its alias, and once that alias is a bounded string, its decoding of exactly the
/// manifest bytes of `src` for the payload's major version.
pub open spec fn ota_answer_from<P: OtaManifestProvider>(
    p: &P,
    src: Seq<u8>,
    limits: AndroidLimits,
    answer: (Seq<char>, Result<OtaManifestObservation, String>),
) -> bool {
    match ota_frame_spec(src, limits) {
        Ok(f) => p.id_post(answer.0) && (string_ok(answer.0, limits) ==> p.decode_post(
            src.subrange(f.manifest_start, f.manifest_end),
            f.major as u64,
            limits,
            answer.1,
        )),
        Err(_) => true,
    }
}

/// Decoded OTA payload layout.
#[derive(Debug)]
pub struct OtaLayout {
    /// Header, manifest, signature and payload-data components.
    pub components: Vec<AndroidComponent>,
    /// Validated manifest projection, when a provider was supplied.
    pub manifest: Option<AndroidOtaManifest>,
    /// Limitations.
    pub limitations: Vec<String>,
}

/// The view of an optional manifest.
pub open spec fn manifest_view(m: Option<AndroidOtaManifest>) -> Option<OtaManifestView> {
    match m {
        Some(x) => Some(x@),
        None => None,
    }
}

impl View for OtaLayout {
    type V = (Seq<AndroidComponentView>, Option<OtaManifestView>, Seq<Seq<char>>);

    open spec fn view(&self) -> (Seq<AndroidComponentView>, Option<OtaManifestView>, Seq<Seq<char>>) {
        (component_views(self.components@), manifest_view(self.manifest), string_views(self.limitations@))
    }
}

/// Frame an OTA payload: header fields, bounds and components; returns the components, major
/// version, manifest range and signature end.
#[verifier::rlimit(40)]
pub fn ota_frame(source: &[u8], limits: AndroidLimits) -> (r: Result<(Vec<AndroidComponent>, u64, usize, usize, usize), C03Error>)
    ensures
        r matches Ok(f) ==> f.2 <= f.3 <= f.4 <= source@.len(),
        r matches Ok(f) ==> ota_frame_spec(source@, limits) == Ok::<OtaFrame, C03Error>(OtaFrame {
            components: component_views(f.0@),
            major: f.1 as int,
            manifest_start: f.2 as int,
            manifest_end: f.3 as int,
            signature_end: f.4 as int,
        }),
        r matches Err(e) ==> ota_frame_spec(source@, limits) == Err::<OtaFrame, C03Error>(e),
{
    reveal(ota_frame_spec);
    let len = source.len();
    if len < 20 {
        return Err(C03Error::Malformed("OTA payload header is truncated"));
    }
    let major = read_be_u64(source, 4).unwrap();
    let msize = read_be_u64(source, 12).unwrap();
    if major != 1 && major != 2 {
        return Err(C03Error::Malformed("unsupported OTA payload major version"));
    }
    if msize > limits.max_manifest_bytes {
        return Err(C03Error::ManifestTooLarge);
    }
    if major == 2 && len < 24 {
        return Err(C03Error::Malformed("OTA v2 header is truncated"));
    }
    let moff: u64 = if major == 2 { 24 } else { 20 };
    let sig: u64 = if major == 2 { crate::bytes::read_be_u32(source, 20).unwrap() as u64 } else { 0 };
    if moff > u64::MAX - msize {
        return Err(C03Error::AccountingOverflow);
    }
    let mend = moff + msize;
    if mend > u64::MAX - sig {
        return Err(C03Error::AccountingOverflow);
    }
    let send = mend + sig;
    if send > len as u64 {
        return Err(C03Error::Malformed("OTA metadata exceeds source"));
    }
    let mut components: Vec<AndroidComponent> = Vec::new();
    assert(component_views(components@) =~= Seq::<AndroidComponentView>::empty());
    push_component(source, &mut components, AndroidComponentKind::Header, "ota.header", 0, moff, limits)?;
    push_component(source, &mut components, AndroidComponentKind::OtaManifest, "ota.manifest", moff, mend, limits)?;
    if sig > 0 {
        push_component(source, &mut components, AndroidComponentKind::OtaMetadataSignature, "ota.metadata_signature", mend, send, limits)?;
    }
    if send < len as u64 {
        push_component(source, &mut components, AndroidComponentKind::OtaPayloadData, "ota.payload_data", send, len as u64, limits)?;
    }
    Ok((components, major, moff as usize, mend as usize, send as usize))
}

/// Build the manifest projection and the report limitations from a provider's alias and answer
/// for the payload framed by `major`, the manifest range and the signature end.
#[verifier::rlimit(30)]
pub fn ota_manifest_from_answer(
    source: &[u8],
    major: u64,
    manifest_start: usize,
    manifest_end: usize,
    signature_end: usize,
    provider_id: &str,
    decoded: Result<OtaManifestObservation, String>,
    limits: AndroidLimits,
) -> (r: Result<(AndroidOtaManifest, Vec<String>), C03Error>)
    requires
        manifest_start <= manifest_end <= signature_end <= source@.len(),
    ensures
        r matches Ok(out) ==> ota_manifest_spec(source@, major as int, manifest_start as int, manifest_end as int,
            signature_end as int, provider_id@, decoded, limits) == Ok::<(OtaManifestView, Seq<Seq<char>>), C03Error>(
            (out.0@, string_views(out.1@))),
        r matches Err(e) ==> ota_manifest_spec(source@, major as int, manifest_start as int, manifest_end as int,
            signature_end as int, provider_id@, decoded, limits) == Err::<(OtaManifestView, Seq<Seq<char>>), C03Error>(e),
{
    reveal(ota_manifest_spec);
    validate_string(provider_id, limits)?;
    let observation = match decoded {
        Err(m) => {
            return Err(C03Error::OtaProvider(m));
        },
        Ok(o) => o,
    };
    let ghost obs = observation@;
    validate_ota_observation(&observation, (source.len() - signature_end) as u64, limits)?;
    let mut limitations: Vec<String> = Vec::new();
    push_string(&mut limitations, owned("OTA applicability/signature trust is not established by static payload parsing"));
    let mut k: usize = 0;
    while k < observation.limitations.len()
        invariant
            k <= obs.limitations.len(),
            obs == observation@,
            string_views(limitations@) == seq![ota_trust_note()] + obs.limitations.take(k as int),
        decreases obs.limitations.len() - k,
    {
        assert(obs.limitations[k as int] == observation.limitations@[k as int]@);
        push_string(&mut limitations, observation.limitations[k].clone());
        assert(obs.limitations.take(k as int + 1) =~= obs.limitations.take(k as int).push(obs.limitations[k as int]));
        k = k + 1;
    }
    assert(obs.limitations.take(obs.limitations.len() as int) =~= obs.limitations);
    let manifest_bytes = vstd::slice::slice_subrange(source, manifest_start, manifest_end);
    let manifest = AndroidOtaManifest {
        major_version: major,
        manifest_sha256: sha256_hex(manifest_bytes),
        provider_alias: owned(provider_id),
        block_size: observation.block_size,
        partitions: observation.partitions,
        dynamic_groups: observation.dynamic_groups,
        partial_update: observation.partial_update,
        limitations: observation.limitations,
    };
    Ok((manifest, limitations))
}

/// Whether a layout result agrees with an expected outcome.
pub open spec fn layout_agrees(
    r: Result<OtaLayout, C03Error>,
    expected: Result<(Seq<AndroidComponentView>, Option<OtaManifestView>, Seq<Seq<char>>), C03Error>,
) -> bool {
    match r {
        Ok(l) => expected == Ok::<(Seq<AndroidComponentView>, Option<OtaManifestView>, Seq<Seq<char>>), C03Error>(l@),
        Err(e) => expected == Err::<(Seq<AndroidComponentView>, Option<OtaManifestView>, Seq<Seq<char>>), C03Error>(e),
    }
}

/// Frame an OTA payload and, when a provider is supplied, validate its decoding of the manifest.
///
/// Without a provider the result is exactly `ota_spec(.., None)`; with one, it is `ota_spec` of
/// the alias and answer that the provider gave, whatever they were.
pub fn inspect_ota_layout<P: OtaManifestProvider>(source: &[u8], limits: AndroidLimits, provider: Option<&P>) -> (r:
    Result<OtaLayout, C03Error>)
    ensures
        provider is None ==> layout_agrees(r, ota_spec(source@, limits, None)),
        provider is Some ==> exists|answer: (Seq<char>, Result<OtaManifestObservation, String>)|
            ota_answer_from(provider->0, source@, limits, answer) && layout_agrees(
                r,
                #[trigger] ota_spec(source@, limits, Some(answer)),
            ),
{
    let (components, major, ms, me, se) = match ota_frame(source, limits) {
        Ok(f) => f,
        Err(e) => {
            let ghost answer = (Seq::<char>::empty(), Err::<OtaManifestObservation, String>(vstd::pervasive::arbitrary()));
            assert(layout_agrees(Err(e), ota_spec(source@, limits, Some(answer))));
            return Err(e);
        },
    };
    match provider {
        None => {
            let mut limitations: Vec<String> = Vec::new();
            push_string(&mut limitations, owned("OTA applicability/signature trust is not established by static payload parsing"));
            push_string(&mut limitations, owned("no OTA manifest protobuf Provider was supplied"));
            assert(string_views(limitations@) =~= seq![ota_trust_note(), no_provider_note()]);
            Ok(OtaLayout { components, manifest: None, limitations })
        },
        Some(p) => {
            let id = p.provider_id();
            if validate_string(id, limits).is_err() {
                let ghost answer = (id@, Err::<OtaManifestObservation, String>(vstd::pervasive::arbitrary()));
                assert(layout_agrees(Err(C03Error::InvalidString), ota_spec(source@, limits, Some(answer)))) by {
                    reveal(ota_manifest_spec);
                }
                return Err(C03Error::InvalidString);
            }
            let manifest_bytes = vstd::slice::slice_subrange(source, ms, me);
            let decoded = p.decode_manifest(manifest_bytes, major, limits);
            let ghost answer = (id@, decoded);
            let result = ota_manifest_from_answer(source, major, ms, me, se, id, decoded, limits);
            match result {
                Err(e) => {
                    assert(layout_agrees(Err(e), ota_spec(source@, limits, Some(answer))));
                    Err(e)
                },
                Ok((manifest, limitations)) => {
                    let layout = OtaLayout { components, manifest: Some(manifest), limitations };
                    assert(layout_agrees(Ok(layout), ota_spec(source@, limits, Some(answer))));
                    Ok(layout)
                },
            }
        },
    }
}

} // verus!
