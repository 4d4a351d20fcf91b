//! Configuration data: key-value pairs, instance blueprints, drive mount
//! modes, container mounts, and the assembly of a bootable VM
//! configuration from named images.

use vstd::prelude::*;
use crate::vars::bytes_eq;
use crate::afl::spec_trim;

verus! {

/// One `KEY=VALUE` configuration pair.
pub struct KeyValue {
    pub key: Vec<u8>,
    pub value: Vec<u8>,
}

impl KeyValue {
    pub fn new(key: Vec<u8>, value: Vec<u8>) -> (r: Self)
        ensures
            r.key@ == key@,
            r.value@ == value@,
    {
        KeyValue { key, value }
    }

    /// Parses `KEY=VALUE`, splitting at the first `=` and trimming both
    /// sides; None without an `=`.
    pub fn from_str(input: &[u8]) -> (r: Option<Self>)
        ensures
            match r {
                Some(kv) => {
                    crate::vars::find_from(input@, 0x3d, 0) matches Some(p) && kv.key@ == spec_trim(
                        input@.subrange(0, p),
                    ) && kv.value@ == spec_trim(input@.subrange(p + 1, input@.len() as int))
                },
                None => crate::vars::find_from(input@, 0x3d, 0) is None,
            },
    {
        let p = match crate::vars::find_byte_from(input, 0x3d, 0) {
            Some(p) => p,
            None => {
                return None;
            },
        };
        proof {
            crate::vars::lemma_find_from(input@, 0x3d, 0);
            assert(p < input@.len() && input@.len() == input.len());
        }
        let key = crate::afl::trim_bytes(vstd::slice::slice_subrange(input, 0, p));
        let value = crate::afl::trim_bytes(
            vstd::slice::slice_subrange(input, p + 1, input.len()),
        );
        Some(KeyValue { key, value })
    }
}

/// How a drive is attached to a guest.
#[derive(Clone, Copy, PartialEq, Eq, Structural, Debug)]
pub enum MountKind {
    /// Mounted read only.
    ReadOnly,
    /// Copied into the working directory once, then mounted read/write.
    Duplicate,
    /// Mounted read/write in place, mutating the source image.
    InPlace,
    /// Requires an existing duplicate from a prior run.
    ReuseDuplicate,
}

/// The kind of a container mount.
#[derive(Clone, Copy, PartialEq, Eq, Structural, Debug)]
pub enum MountType {
    Bind,
    Volume,
    TmpFs,
}

/// The `--mount` word of a mount type.
pub open spec fn spec_mount_type_name(t: MountType) -> Seq<u8> {
    match t {
        MountType::Bind => seq![0x62u8, 0x69u8, 0x6eu8, 0x64u8],
        MountType::Volume => seq![0x76u8, 0x6fu8, 0x6cu8, 0x75u8, 0x6du8, 0x65u8],
        MountType::TmpFs => seq![0x74u8, 0x6du8, 0x70u8, 0x66u8, 0x73u8],
    }
}

/// One container mount: type, source and destination.
pub struct Mount {
    pub type_: MountType,
    pub source: Vec<u8>,
    pub destination: Vec<u8>,
}

/// The bytes of `type=,source=,destination=` around a mount.
pub open spec fn spec_mount_arg(m: Mount) -> Seq<u8> {
    seq![0x74u8, 0x79u8, 0x70u8, 0x65u8, 0x3du8] + spec_mount_type_name(m.type_) + seq![
        0x2cu8,
        0x73u8,
        0x6fu8,
        0x75u8,
        0x72u8,
        0x63u8,
        0x65u8,
        0x3du8,
    ] + m.source@ + seq![
        0x2cu8,
        0x64u8,
        0x65u8,
        0x73u8,
        0x74u8,
        0x69u8,
        0x6eu8,
        0x61u8,
        0x74u8,
        0x69u8,
        0x6fu8,
        0x6eu8,
        0x3du8,
    ] + m.destination@
}

impl Mount {
    /// Renders this mount as one `--mount` argument.
    pub fn to_arg(&self) -> (r: Vec<u8>)
        ensures
            r@ == spec_mount_arg(*self),
    {
        let type_eq: [u8; 5] = [0x74, 0x79, 0x70, 0x65, 0x3d];
        let source_eq: [u8; 8] = [0x2c, 0x73, 0x6f, 0x75, 0x72, 0x63, 0x65, 0x3d];
        let dest_eq: [u8; 13] = [
            0x2c, 0x64, 0x65, 0x73, 0x74, 0x69, 0x6e, 0x61, 0x74, 0x69, 0x6f, 0x6e, 0x3d,
        ];
        let mut out: Vec<u8> = Vec::new();
        out.extend_from_slice(type_eq.as_slice());
        match self.type_ {
            MountType::Bind => {
                let w: [u8; 4] = [0x62, 0x69, 0x6e, 0x64];
                out.extend_from_slice(w.as_slice());
            },
            MountType::Volume => {
                let w: [u8; 6] = [0x76, 0x6f, 0x6c, 0x75, 0x6d, 0x65];
                out.extend_from_slice(w.as_slice());
            },
            MountType::TmpFs => {
                let w: [u8; 5] = [0x74, 0x6d, 0x70, 0x66, 0x73];
                out.extend_from_slice(w.as_slice());
            },
        }
        out.extend_from_slice(source_eq.as_slice());
        out.extend_from_slice(self.source.as_slice());
        out.extend_from_slice(dest_eq.as_slice());
        out.extend_from_slice(self.destination.as_slice());
        proof {
            assert(out@ =~= spec_mount_arg(*self));
        }
        out
    }
}

/// A container image source for a root file system: the image tag, its
/// build context, the paths exported from it and the empty folders to
/// create.
pub struct DockerSource {
    pub tag: Vec<u8>,
    pub build_path: Vec<u8>,
    pub copy: Vec<Vec<u8>>,
    pub create_dirs: Vec<Vec<u8>>,
}

/// A container-backed worker instance: the image to run, its working
/// directory on the host, and its bind mounts (source, destination).
pub struct DockerConfig {
    pub image: Vec<u8>,
    pub workdir: Vec<u8>,
    pub mounts: Vec<(Vec<u8>, Vec<u8>)>,
}

/// A created container and what has been done to it.
pub struct Container {
    pub name: Vec<u8>,
    pub active: bool,
    pub removed: bool,
}

impl Container {
    /// What removing this container requires: a stop first when it is
    /// running, a remove unless it is already gone.
    pub fn removal_plan(&self) -> (r: (bool, bool))
        ensures
            r.0 == (!self.removed && self.active),
            r.1 == !self.removed,
    {
        (!self.removed && self.active, !self.removed)
    }
}

/// What attaching one drive requires of the working copy.
pub enum MountAction {
    /// Mount the source image itself, read only.
    UseSourceReadOnly,
    /// Mount the source image itself, writable, mutating it.
    UseSourceWritable,
    /// Use the existing working copy, writable.
    UseCopy,
    /// Copy the image into the working directory once, then use the copy.
    MakeCopyThenUse,
}

/// The drive attachment plan for one mount mode: a read-only mount uses
/// the source as it is; a duplicate mount copies once and reuses an
/// existing copy; reusing a duplicate requires that a copy already exists;
/// an in-place mount mutates the source.
pub fn drive_mount_plan(kind: MountKind, copy_exists: bool) -> (r: Result<MountAction, ConfigError>)
    ensures
        (kind is ReuseDuplicate && !copy_exists) <==> r is Err,
        kind is ReadOnly ==> (r == Result::<MountAction, ConfigError>::Ok(
            MountAction::UseSourceReadOnly,
        )),
        kind is InPlace ==> (r == Result::<MountAction, ConfigError>::Ok(
            MountAction::UseSourceWritable,
        )),
        kind is Duplicate ==> r == Result::<MountAction, ConfigError>::Ok(
            if copy_exists {
                MountAction::UseCopy
            } else {
                MountAction::MakeCopyThenUse
            },
        ),
        (kind is ReuseDuplicate && copy_exists) ==> (r == Result::<MountAction, ConfigError>::Ok(
            MountAction::UseCopy,
        )),
{
    match kind {
        MountKind::ReadOnly => Ok(MountAction::UseSourceReadOnly),
        MountKind::InPlace => Ok(MountAction::UseSourceWritable),
        MountKind::Duplicate => Ok(
            if copy_exists {
                MountAction::UseCopy
            } else {
                MountAction::MakeCopyThenUse
            },
        ),
        MountKind::ReuseDuplicate => {
            if copy_exists {
                Ok(MountAction::UseCopy)
            } else {
                Err(ConfigError::MissingDuplicate)
            }
        },
    }
}

/// One host path copied into an image: where from and where to.
pub struct PathToCopy {
    pub dst: Vec<u8>,
    pub src: Vec<u8>,
}

/// An image source: either exported from a container image or copied from
/// host paths; `size` is the optional explicit target size (0 when unset).
pub struct ImageSource {
    pub docker: Option<DockerSource>,
    pub host_paths: Vec<PathToCopy>,
    pub size: u64,
}

impl ImageSource {
    /// The byte size the image file will be given; see
    /// [`crate::image::spec_target_size`].
    pub fn get_size(&self, measured_size: u64) -> (r: Result<u64, crate::image::ImageError>)
        requires
            measured_size + 1000 + crate::image::BLOCK_SIZE <= u64::MAX,
            self.size + crate::image::BLOCK_SIZE <= u64::MAX,
        ensures
            match r {
                Ok(size) => crate::image::spec_target_size(self.size, measured_size) == Result::<
                    int,
                    crate::image::ImageError,
                >::Ok(size as int),
                Err(e) => crate::image::spec_target_size(self.size, measured_size) == Result::<
                    int,
                    crate::image::ImageError,
                >::Err(e),
            },
    {
        crate::image::target_image_size(self.size, measured_size)
    }
}

/// The boot configuration of a microVM.
pub struct BootSource {
    pub kernel_image_path: Vec<u8>,
    pub boot_args: Vec<u8>,
}

/// The machine shape of a microVM.
pub struct MachineConfig {
    pub smt: bool,
    pub mem_size_mib: u64,
    pub vcpu_count: u8,
}

impl Default for MachineConfig {
    /// One single-threaded vCPU with 512 MiB.
    fn default() -> (r: Self)
        ensures
            r.smt == false,
            r.mem_size_mib == 512,
            r.vcpu_count == 1,
    {
        MachineConfig { smt: false, mem_size_mib: 512, vcpu_count: 1 }
    }
}

/// One drive attached to a guest: its id, the image file behind it, and how
/// it is mounted.
pub struct DriveConfig {
    pub name: Vec<u8>,
    pub path: Vec<u8>,
    pub mount: MountKind,
}

/// One drive as configured: the id, the named image it refers to, and the
/// mount mode.
pub struct DriveSpec {
    pub name: Vec<u8>,
    pub image: Vec<u8>,
    pub mount_as: MountKind,
}

/// A named guest-environment blueprint.
pub struct Instance {
    pub boot_delay_sec: u64,
    pub machine: MachineConfig,
    pub rootfs: DriveSpec,
    pub drives: Vec<DriveSpec>,
    pub recreate_workdir: bool,
}

/// The kernel configuration: where the kernel image comes from, its boot
/// arguments, and optional entropy to feed the guest.
pub struct Kernel {
    pub url: Option<Vec<u8>>,
    pub sha256: Option<Vec<u8>>,
    pub path: Option<Vec<u8>>,
    pub boot_args: Vec<u8>,
    pub entropy: Option<Vec<u32>>,
}

/// A fully resolved VM configuration, ready to boot.
pub struct VmConfig {
    pub bin: Vec<u8>,
    pub boot_delay_sec: u64,
    pub kernel_entropy: Option<Vec<u32>>,
    pub recreate_work_dir: bool,
    pub boot: BootSource,
    pub machine: MachineConfig,
    pub rootfs: DriveConfig,
    pub drives: Vec<DriveConfig>,
}

/// Why an instance cannot be assembled.
#[derive(Debug)]
pub enum ConfigError {
    /// A drive refers to an image name with no materialized file.
    UnknownImage { name: Vec<u8> },
    /// A drive wants to reuse a working copy that does not exist.
    MissingDuplicate,
    /// Two included configuration files define the same name.
    Redefinition { key: Vec<u8> },
}

/// The path behind an image name in a name-to-path table, first match.
pub open spec fn spec_image_path(paths: Seq<(Seq<u8>, Seq<u8>)>, name: Seq<u8>) -> Option<Seq<u8>> {
    crate::vars::lookup(paths, name)
}

/// Looks an image path up by name.
pub fn find_image_path(paths: &Vec<(Vec<u8>, Vec<u8>)>, name: &[u8]) -> (r: Option<Vec<u8>>)
    ensures
        match r {
            Some(p) => spec_image_path(crate::vars::pairs_view(paths@), name@) == Some(p@),
            None => spec_image_path(crate::vars::pairs_view(paths@), name@) is None,
        },
{
    let ghost pv = crate::vars::pairs_view(paths@);
    let n = paths.len();
    let mut i: usize = 0;
    #[verifier::loop_isolation(false)]
    while i < n
        invariant
            0 <= i <= n == paths@.len(),
            forall|l: int| 0 <= l < i ==> pv[l].0 != name@,
        decreases n - i,
    {
        if bytes_eq(paths[i].0.as_slice(), name) {
            proof {
                crate::vars::lemma_find_key_is(pv, name@, 0, i as int);
            }
            return Some(vstd::slice::slice_to_vec(paths[i].1.as_slice()));
        }
        i += 1;
    }
    proof {
        crate::vars::lemma_find_key_none(pv, name@, 0);
    }
    None
}

/// Resolves one drive: its image name must be in the path table.
fn resolve_drive(spec_drive: &DriveSpec, image_paths: &Vec<(Vec<u8>, Vec<u8>)>) -> (r: Result<
    DriveConfig,
    ConfigError,
>)
    ensures
        match r {
            Ok(d) => d.name@ == spec_drive.name@ && d.mount == spec_drive.mount_as
                && spec_image_path(crate::vars::pairs_view(image_paths@), spec_drive.image@)
                == Some(d.path@),
            Err(e) => e matches ConfigError::UnknownImage { name } && name@ == spec_drive.image@
                && spec_image_path(
                crate::vars::pairs_view(image_paths@),
                spec_drive.image@,
            ) is None,
        },
{
    match find_image_path(image_paths, spec_drive.image.as_slice()) {
        Some(path) => Ok(
            DriveConfig {
                name: vstd::slice::slice_to_vec(spec_drive.name.as_slice()),
                path,
                mount: spec_drive.mount_as,
            },
        ),
        None => Err(
            ConfigError::UnknownImage {
                name: vstd::slice::slice_to_vec(spec_drive.image.as_slice()),
            },
        ),
    }
}

/// Assembles a bootable VM configuration for one instance: the binary and
/// kernel paths are taken as given, the root file system and each extra
/// drive are resolved against the materialized image paths in order with
/// name and mount mode kept, and the instance's machine shape, entropy and
/// flags are carried over.  An unresolvable image name fails the assembly
/// with that name.
#[verifier::loop_isolation(false)]
pub fn build_instance(
    firecracker: &[u8],
    instance: &Instance,
    kernel_config: &Kernel,
    kernel: &[u8],
    image_paths: &Vec<(Vec<u8>, Vec<u8>)>,
) -> (r: Result<VmConfig, ConfigError>)
    ensures
        r matches Ok(c) ==> {
            &&& c.bin@ == firecracker@
            &&& c.boot_delay_sec == instance.boot_delay_sec
            &&& c.recreate_work_dir == instance.recreate_workdir
            &&& c.boot.kernel_image_path@ == kernel@
            &&& c.boot.boot_args@ == kernel_config.boot_args@
            &&& c.machine == instance.machine
            &&& c.rootfs.name@ == instance.rootfs.name@
            &&& c.rootfs.mount == instance.rootfs.mount_as
            &&& spec_image_path(crate::vars::pairs_view(image_paths@), instance.rootfs.image@)
                == Some(c.rootfs.path@)
            &&& c.drives@.len() == instance.drives@.len()
            &&& forall|i: int|
                0 <= i < c.drives@.len() ==> (#[trigger] c.drives@[i]).name@
                    == instance.drives@[i].name@ && c.drives@[i].mount
                    == instance.drives@[i].mount_as && spec_image_path(
                    crate::vars::pairs_view(image_paths@),
                    instance.drives@[i].image@,
                ) == Some(c.drives@[i].path@)
            &&& (c.kernel_entropy matches Some(e) <==> kernel_config.entropy is Some)
            &&& (kernel_config.entropy matches Some(e) ==> c.kernel_entropy matches Some(ce)
                && ce@ == e@)
        },
        r matches Err(e) ==> e matches ConfigError::UnknownImage { name } && spec_image_path(
            crate::vars::pairs_view(image_paths@),
            name@,
        ) is None && (name@ == instance.rootfs.image@ || exists|i: int|
            0 <= i < instance.drives@.len() && name@ == (#[trigger] instance.drives@[i]).image@),
{
    let rootfs = match resolve_drive(&instance.rootfs, image_paths) {
        Ok(d) => d,
        Err(e) => {
            return Err(e);
        },
    };
    let mut drives: Vec<DriveConfig> = Vec::new();
    let n = instance.drives.len();
    let mut i: usize = 0;
    while i < n
        invariant
            0 <= i <= n == instance.drives@.len(),
            drives@.len() == i,
            forall|l: int|
                0 <= l < i ==> (#[trigger] drives@[l]).name@ == instance.drives@[l].name@
                    && drives@[l].mount == instance.drives@[l].mount_as && spec_image_path(
                    crate::vars::pairs_view(image_paths@),
                    instance.drives@[l].image@,
                ) == Some(drives@[l].path@),
        decreases n - i,
    {
        match resolve_drive(&instance.drives[i], image_paths) {
            Ok(d) => {
                drives.push(d);
            },
            Err(e) => {
                return Err(e);
            },
        }
        i += 1;
    }
    let entropy = match &kernel_config.entropy {
        Some(e) => Some(vstd::slice::slice_to_vec(e.as_slice())),
        None => None,
    };
    Ok(
        VmConfig {
            bin: vstd::slice::slice_to_vec(firecracker),
            boot_delay_sec: instance.boot_delay_sec,
            kernel_entropy: entropy,
            recreate_work_dir: instance.recreate_workdir,
            boot: BootSource {
                kernel_image_path: vstd::slice::slice_to_vec(kernel),
                boot_args: vstd::slice::slice_to_vec(kernel_config.boot_args.as_slice()),
            },
            machine: MachineConfig {
                smt: instance.machine.smt,
                mem_size_mib: instance.machine.mem_size_mib,
                vcpu_count: instance.machine.vcpu_count,
            },
            rootfs,
            drives,
        },
    )
}

/// Binds `key` to `value` in a configuration pair list: the first pair
/// with that key is replaced in place; a fresh key goes to the end.
#[verifier::loop_isolation(false)]
pub fn insert_pair(pairs: Vec<(Vec<u8>, Vec<u8>)>, key: Vec<u8>, value: Vec<u8>) -> (r: Vec<
    (Vec<u8>, Vec<u8>),
>)
    ensures
        crate::vars::pairs_view(r@) == crate::vars::spec_insert(
            crate::vars::pairs_view(pairs@),
            key@,
            value@,
        ),
{
    let ghost pv = crate::vars::pairs_view(pairs@);
    let mut pairs = pairs;
    let n = pairs.len();
    let mut i: usize = 0;
    while i < n
        invariant
            0 <= i <= n == pairs@.len(),
            pv == crate::vars::pairs_view(pairs@),
            forall|l: int| 0 <= l < i ==> pv[l].0 != key@,
        decreases n - i,
    {
        if bytes_eq(pairs[i].0.as_slice(), key.as_slice()) {
            proof {
                crate::vars::lemma_find_key_is(pv, key@, 0, i as int);
            }
            pairs[i] = (key, value);
            proof {
                assert(crate::vars::pairs_view(pairs@) =~~= pv.update(i as int, (key@, value@)));
            }
            return pairs;
        }
        i += 1;
    }
    proof {
        crate::vars::lemma_find_key_none(pv, key@, 0);
    }
    pairs.push((key, value));
    proof {
        assert(crate::vars::pairs_view(pairs@) =~~= pv.push((key@, value@)));
    }
    pairs
}

/// The key bound at index `a` of two tables laid end to end.
pub open spec fn spec_concat_key<T>(dst: Seq<(Vec<u8>, T)>, src: Seq<(Vec<u8>, T)>, a: int) -> Seq<
    u8,
> {
    if a < dst.len() {
        dst[a].0@
    } else {
        src[a - dst.len()].0@
    }
}

/// Merges a second configuration table into a first: the source entries
/// are appended in order, and a key that is already taken — by the
/// destination or by an earlier source entry — is a redefinition error
/// naming that key.
#[verifier::loop_isolation(false)]
pub fn merge_unique<T>(dst: Vec<(Vec<u8>, T)>, src: Vec<(Vec<u8>, T)>) -> (r: Result<
    Vec<(Vec<u8>, T)>,
    ConfigError,
>)
    ensures
        r matches Ok(merged) ==> merged@ == dst@ + src@ && forall|a: int, b: int|
            0 <= a < b < dst@.len() + src@.len() && b >= dst@.len() ==> spec_concat_key(
                dst@,
                src@,
                a,
            ) != spec_concat_key(dst@, src@, b),
        r matches Err(e) ==> e matches ConfigError::Redefinition { key } && exists|a: int, b: int|
            0 <= a < b < dst@.len() + src@.len() && b >= dst@.len() && spec_concat_key(
                dst@,
                src@,
                a,
            ) == key@ && spec_concat_key(dst@, src@, b) == key@,
{
    let ghost d0 = dst@;
    let mut merged = dst;
    let mut rest = src;
    let ghost s0 = rest@;
    let n = rest.len();
    let mut j: usize = 0;
    while rest.len() > 0
        invariant
            j + rest@.len() == n == s0.len(),
            merged@ == d0 + s0.subrange(0, j as int),
            forall|l: int| 0 <= l < rest@.len() ==> rest@[l] == s0[j + l],
            forall|a: int, b: int|
                0 <= a < b < merged@.len() && b >= d0.len() ==> (#[trigger] merged@[a]).0@ != (
                #[trigger] merged@[b]).0@,
        decreases rest@.len(),
    {
        let (key, value) = rest.remove(0);
        let m = merged.len();
        let mut i: usize = 0;
        while i < m
            invariant
                0 <= i <= m == merged@.len(),
                forall|l: int| 0 <= l < i ==> (#[trigger] merged@[l]).0@ != key@,
            decreases m - i,
        {
            if bytes_eq(merged[i].0.as_slice(), key.as_slice()) {
                proof {
                    assert(s0[j as int].0@ == key@);
                    assert(spec_concat_key(d0, s0, i as int) == key@);
                    assert(spec_concat_key(d0, s0, d0.len() + j) == key@);
                }
                return Err(ConfigError::Redefinition { key });
            }
            i += 1;
        }
        merged.push((key, value));
        proof {
            assert(merged@ =~= d0 + s0.subrange(0, j + 1));
        }
        j += 1;
    }
    proof {
        assert(s0.subrange(0, n as int) =~= s0);
        assert forall|a: int, b: int|
            0 <= a < b < d0.len() + s0.len() && b >= d0.len() implies spec_concat_key(d0, s0, a)
            != spec_concat_key(d0, s0, b) by {
            assert(merged@[a].0@ == spec_concat_key(d0, s0, a));
            assert(merged@[b].0@ == spec_concat_key(d0, s0, b));
        }
    }
    Ok(merged)
}


/// The wire payload configuring the boot source:
/// `{"kernel_image_path":..,"boot_args":..}`.
pub fn boot_source_json(boot: &BootSource) -> (r: crate::json::Json)
    ensures
        crate::json::models(
            r,
            crate::json::JsonV::Obj(
                seq![
                    (seq![0x6bu8, 0x65u8, 0x72u8, 0x6eu8, 0x65u8, 0x6cu8, 0x5fu8, 0x69u8, 0x6du8, 0x61u8, 0x67u8, 0x65u8, 0x5fu8, 0x70u8, 0x61u8, 0x74u8, 0x68u8], crate::json::JsonV::Str(boot.kernel_image_path@)),
                    (seq![0x62u8, 0x6fu8, 0x6fu8, 0x74u8, 0x5fu8, 0x61u8, 0x72u8, 0x67u8, 0x73u8], crate::json::JsonV::Str(boot.boot_args@)),
                ],
            ),
        ),
{
    let k1: [u8; 17] = [0x6b, 0x65, 0x72, 0x6e, 0x65, 0x6c, 0x5f, 0x69, 0x6d, 0x61, 0x67, 0x65, 0x5f, 0x70, 0x61, 0x74, 0x68];
    let k2: [u8; 9] = [0x62, 0x6f, 0x6f, 0x74, 0x5f, 0x61, 0x72, 0x67, 0x73];
    let mut pairs: Vec<(Vec<u8>, crate::json::Json)> = Vec::new();
    pairs.push(
        (
            vstd::slice::slice_to_vec(k1.as_slice()),
            crate::json::Json::Str(vstd::slice::slice_to_vec(boot.kernel_image_path.as_slice())),
        ),
    );
    pairs.push(
        (
            vstd::slice::slice_to_vec(k2.as_slice()),
            crate::json::Json::Str(vstd::slice::slice_to_vec(boot.boot_args.as_slice())),
        ),
    );
    let r = crate::json::Json::Obj(pairs);
    proof {
        let gps = seq![
            (seq![0x6bu8, 0x65u8, 0x72u8, 0x6eu8, 0x65u8, 0x6cu8, 0x5fu8, 0x69u8, 0x6du8, 0x61u8, 0x67u8, 0x65u8, 0x5fu8, 0x70u8, 0x61u8, 0x74u8, 0x68u8], crate::json::JsonV::Str(boot.kernel_image_path@)),
            (seq![0x62u8, 0x6fu8, 0x6fu8, 0x74u8, 0x5fu8, 0x61u8, 0x72u8, 0x67u8, 0x73u8], crate::json::JsonV::Str(boot.boot_args@)),
        ];
        assert(r->Obj_0@[0].0@ =~= gps[0].0);
        assert(r->Obj_0@[1].0@ =~= gps[1].0);
        assert forall|i: int| 0 <= i < gps.len() implies (#[trigger] r->Obj_0@[i]).0@ == gps[i].0
            && crate::json::models(r->Obj_0@[i].1, gps[i].1) by {
            if i == 0 {
                assert(crate::json::models(r->Obj_0@[0].1, gps[0].1));
            } else {
                assert(crate::json::models(r->Obj_0@[1].1, gps[1].1));
            }
        }
    }
    r
}

/// The wire payload configuring the machine:
/// `{"smt":..,"mem_size_mib":..,"vcpu_count":..}`.
pub fn machine_config_json(machine: &MachineConfig) -> (r: crate::json::Json)
    ensures
        crate::json::models(
            r,
            crate::json::JsonV::Obj(
                seq![
                    (seq![0x73u8, 0x6du8, 0x74u8], crate::json::JsonV::Bool(machine.smt)),
                    (
                        seq![0x6du8, 0x65u8, 0x6du8, 0x5fu8, 0x73u8, 0x69u8, 0x7au8, 0x65u8, 0x5fu8, 0x6du8, 0x69u8, 0x62u8],
                        crate::json::JsonV::Num(crate::numfmt::dec_of(machine.mem_size_mib as nat)),
                    ),
                    (
                        seq![0x76u8, 0x63u8, 0x70u8, 0x75u8, 0x5fu8, 0x63u8, 0x6fu8, 0x75u8, 0x6eu8, 0x74u8],
                        crate::json::JsonV::Num(crate::numfmt::dec_of(machine.vcpu_count as nat)),
                    ),
                ],
            ),
        ),
{
    let k1: [u8; 3] = [0x73, 0x6d, 0x74];
    let k2: [u8; 12] = [0x6d, 0x65, 0x6d, 0x5f, 0x73, 0x69, 0x7a, 0x65, 0x5f, 0x6d, 0x69, 0x62];
    let k3: [u8; 10] = [0x76, 0x63, 0x70, 0x75, 0x5f, 0x63, 0x6f, 0x75, 0x6e, 0x74];
    let mut pairs: Vec<(Vec<u8>, crate::json::Json)> = Vec::new();
    pairs.push((vstd::slice::slice_to_vec(k1.as_slice()), crate::json::Json::Bool(machine.smt)));
    pairs.push(
        (
            vstd::slice::slice_to_vec(k2.as_slice()),
            crate::json::Json::Num(crate::numfmt::to_decimal(machine.mem_size_mib)),
        ),
    );
    pairs.push(
        (
            vstd::slice::slice_to_vec(k3.as_slice()),
            crate::json::Json::Num(crate::numfmt::to_decimal(machine.vcpu_count as u64)),
        ),
    );
    let r = crate::json::Json::Obj(pairs);
    proof {
        let gps = seq![
            (seq![0x73u8, 0x6du8, 0x74u8], crate::json::JsonV::Bool(machine.smt)),
            (
                seq![0x6du8, 0x65u8, 0x6du8, 0x5fu8, 0x73u8, 0x69u8, 0x7au8, 0x65u8, 0x5fu8, 0x6du8, 0x69u8, 0x62u8],
                crate::json::JsonV::Num(crate::numfmt::dec_of(machine.mem_size_mib as nat)),
            ),
            (
                seq![0x76u8, 0x63u8, 0x70u8, 0x75u8, 0x5fu8, 0x63u8, 0x6fu8, 0x75u8, 0x6eu8, 0x74u8],
                crate::json::JsonV::Num(crate::numfmt::dec_of(machine.vcpu_count as nat)),
            ),
        ];
        assert(r->Obj_0@[0].0@ =~= gps[0].0);
        assert(r->Obj_0@[1].0@ =~= gps[1].0);
        assert(r->Obj_0@[2].0@ =~= gps[2].0);
        assert forall|i: int| 0 <= i < gps.len() implies (#[trigger] r->Obj_0@[i]).0@ == gps[i].0
            && crate::json::models(r->Obj_0@[i].1, gps[i].1) by {
            if i == 0 {
                assert(crate::json::models(r->Obj_0@[0].1, gps[0].1));
            } else if i == 1 {
                assert(crate::json::models(r->Obj_0@[1].1, gps[1].1));
            } else {
                assert(crate::json::models(r->Obj_0@[2].1, gps[2].1));
            }
        }
    }
    r
}

/// The wire payload attaching one drive:
/// `{"drive_id":..,"path_on_host":..,"is_root_device":..,"is_read_only":..}`.
pub fn drive_json(drive_id: &[u8], path_on_host: &[u8], is_root_device: bool, is_read_only: bool) -> (r:
    crate::json::Json)
    ensures
        crate::json::models(
            r,
            crate::json::JsonV::Obj(
                seq![
                    (seq![0x64u8, 0x72u8, 0x69u8, 0x76u8, 0x65u8, 0x5fu8, 0x69u8, 0x64u8], crate::json::JsonV::Str(drive_id@)),
                    (seq![0x70u8, 0x61u8, 0x74u8, 0x68u8, 0x5fu8, 0x6fu8, 0x6eu8, 0x5fu8, 0x68u8, 0x6fu8, 0x73u8, 0x74u8], crate::json::JsonV::Str(path_on_host@)),
                    (seq![0x69u8, 0x73u8, 0x5fu8, 0x72u8, 0x6fu8, 0x6fu8, 0x74u8, 0x5fu8, 0x64u8, 0x65u8, 0x76u8, 0x69u8, 0x63u8, 0x65u8], crate::json::JsonV::Bool(is_root_device)),
                    (seq![0x69u8, 0x73u8, 0x5fu8, 0x72u8, 0x65u8, 0x61u8, 0x64u8, 0x5fu8, 0x6fu8, 0x6eu8, 0x6cu8, 0x79u8], crate::json::JsonV::Bool(is_read_only)),
                ],
            ),
        ),
{
    let k1: [u8; 8] = [0x64, 0x72, 0x69, 0x76, 0x65, 0x5f, 0x69, 0x64];
    let k2: [u8; 12] = [0x70, 0x61, 0x74, 0x68, 0x5f, 0x6f, 0x6e, 0x5f, 0x68, 0x6f, 0x73, 0x74];
    let k3: [u8; 14] = [0x69, 0x73, 0x5f, 0x72, 0x6f, 0x6f, 0x74, 0x5f, 0x64, 0x65, 0x76, 0x69, 0x63, 0x65];
    let k4: [u8; 12] = [0x69, 0x73, 0x5f, 0x72, 0x65, 0x61, 0x64, 0x5f, 0x6f, 0x6e, 0x6c, 0x79];
    let mut pairs: Vec<(Vec<u8>, crate::json::Json)> = Vec::new();
    pairs.push(
        (
            vstd::slice::slice_to_vec(k1.as_slice()),
            crate::json::Json::Str(vstd::slice::slice_to_vec(drive_id)),
        ),
    );
    pairs.push(
        (
            vstd::slice::slice_to_vec(k2.as_slice()),
            crate::json::Json::Str(vstd::slice::slice_to_vec(path_on_host)),
        ),
    );
    pairs.push(
        (vstd::slice::slice_to_vec(k3.as_slice()), crate::json::Json::Bool(is_root_device)),
    );
    pairs.push(
        (vstd::slice::slice_to_vec(k4.as_slice()), crate::json::Json::Bool(is_read_only)),
    );
    let r = crate::json::Json::Obj(pairs);
    proof {
        let gps = seq![
            (seq![0x64u8, 0x72u8, 0x69u8, 0x76u8, 0x65u8, 0x5fu8, 0x69u8, 0x64u8], crate::json::JsonV::Str(drive_id@)),
            (seq![0x70u8, 0x61u8, 0x74u8, 0x68u8, 0x5fu8, 0x6fu8, 0x6eu8, 0x5fu8, 0x68u8, 0x6fu8, 0x73u8, 0x74u8], crate::json::JsonV::Str(path_on_host@)),
            (seq![0x69u8, 0x73u8, 0x5fu8, 0x72u8, 0x6fu8, 0x6fu8, 0x74u8, 0x5fu8, 0x64u8, 0x65u8, 0x76u8, 0x69u8, 0x63u8, 0x65u8], crate::json::JsonV::Bool(is_root_device)),
            (seq![0x69u8, 0x73u8, 0x5fu8, 0x72u8, 0x65u8, 0x61u8, 0x64u8, 0x5fu8, 0x6fu8, 0x6eu8, 0x6cu8, 0x79u8], crate::json::JsonV::Bool(is_read_only)),
        ];
        assert(r->Obj_0@[0].0@ =~= gps[0].0);
        assert(r->Obj_0@[1].0@ =~= gps[1].0);
        assert(r->Obj_0@[2].0@ =~= gps[2].0);
        assert(r->Obj_0@[3].0@ =~= gps[3].0);
        assert forall|i: int| 0 <= i < gps.len() implies (#[trigger] r->Obj_0@[i]).0@ == gps[i].0
            && crate::json::models(r->Obj_0@[i].1, gps[i].1) by {
            if i == 0 {
                assert(crate::json::models(r->Obj_0@[0].1, gps[0].1));
            } else if i == 1 {
                assert(crate::json::models(r->Obj_0@[1].1, gps[1].1));
            } else if i == 2 {
                assert(crate::json::models(r->Obj_0@[2].1, gps[2].1));
            } else {
                assert(crate::json::models(r->Obj_0@[3].1, gps[3].1));
            }
        }
    }
    r
}

/// The wire payload configuring the vsock device:
/// `{"guest_cid":..,"uds_path":..}`.
pub fn vsock_json(guest_cid: u64, uds_path: &[u8]) -> (r: crate::json::Json)
    ensures
        crate::json::models(
            r,
            crate::json::JsonV::Obj(
                seq![
                    (
                        seq![0x67u8, 0x75u8, 0x65u8, 0x73u8, 0x74u8, 0x5fu8, 0x63u8, 0x69u8, 0x64u8],
                        crate::json::JsonV::Num(crate::numfmt::dec_of(guest_cid as nat)),
                    ),
                    (seq![0x75u8, 0x64u8, 0x73u8, 0x5fu8, 0x70u8, 0x61u8, 0x74u8, 0x68u8], crate::json::JsonV::Str(uds_path@)),
                ],
            ),
        ),
{
    let k1: [u8; 9] = [0x67, 0x75, 0x65, 0x73, 0x74, 0x5f, 0x63, 0x69, 0x64];
    let k2: [u8; 8] = [0x75, 0x64, 0x73, 0x5f, 0x70, 0x61, 0x74, 0x68];
    let mut pairs: Vec<(Vec<u8>, crate::json::Json)> = Vec::new();
    pairs.push(
        (
            vstd::slice::slice_to_vec(k1.as_slice()),
            crate::json::Json::Num(crate::numfmt::to_decimal(guest_cid)),
        ),
    );
    pairs.push(
        (
            vstd::slice::slice_to_vec(k2.as_slice()),
            crate::json::Json::Str(vstd::slice::slice_to_vec(uds_path)),
        ),
    );
    let r = crate::json::Json::Obj(pairs);
    proof {
        let gps = seq![
            (
                seq![0x67u8, 0x75u8, 0x65u8, 0x73u8, 0x74u8, 0x5fu8, 0x63u8, 0x69u8, 0x64u8],
                crate::json::JsonV::Num(crate::numfmt::dec_of(guest_cid as nat)),
            ),
            (seq![0x75u8, 0x64u8, 0x73u8, 0x5fu8, 0x70u8, 0x61u8, 0x74u8, 0x68u8], crate::json::JsonV::Str(uds_path@)),
        ];
        assert(r->Obj_0@[0].0@ =~= gps[0].0);
        assert(r->Obj_0@[1].0@ =~= gps[1].0);
        assert forall|i: int| 0 <= i < gps.len() implies (#[trigger] r->Obj_0@[i]).0@ == gps[i].0
            && crate::json::models(r->Obj_0@[i].1, gps[i].1) by {
            if i == 0 {
                assert(crate::json::models(r->Obj_0@[0].1, gps[0].1));
            } else {
                assert(crate::json::models(r->Obj_0@[1].1, gps[1].1));
            }
        }
    }
    r
}

/// The wire payload starting the instance:
/// `{"action_type":"InstanceStart"}`.
pub fn instance_start_json() -> (r: crate::json::Json)
    ensures
        crate::json::models(
            r,
            crate::json::JsonV::Obj(
                seq![(seq![0x61u8, 0x63u8, 0x74u8, 0x69u8, 0x6fu8, 0x6eu8, 0x5fu8, 0x74u8, 0x79u8, 0x70u8, 0x65u8], crate::json::JsonV::Str(seq![0x49u8, 0x6eu8, 0x73u8, 0x74u8, 0x61u8, 0x6eu8, 0x63u8, 0x65u8, 0x53u8, 0x74u8, 0x61u8, 0x72u8, 0x74u8]))],
            ),
        ),
{
    let k1: [u8; 11] = [0x61, 0x63, 0x74, 0x69, 0x6f, 0x6e, 0x5f, 0x74, 0x79, 0x70, 0x65];
    let v1: [u8; 13] = [0x49, 0x6e, 0x73, 0x74, 0x61, 0x6e, 0x63, 0x65, 0x53, 0x74, 0x61, 0x72, 0x74];
    let mut pairs: Vec<(Vec<u8>, crate::json::Json)> = Vec::new();
    pairs.push(
        (
            vstd::slice::slice_to_vec(k1.as_slice()),
            crate::json::Json::Str(vstd::slice::slice_to_vec(v1.as_slice())),
        ),
    );
    let r = crate::json::Json::Obj(pairs);
    proof {
        let gps = seq![(seq![0x61u8, 0x63u8, 0x74u8, 0x69u8, 0x6fu8, 0x6eu8, 0x5fu8, 0x74u8, 0x79u8, 0x70u8, 0x65u8], crate::json::JsonV::Str(seq![0x49u8, 0x6eu8, 0x73u8, 0x74u8, 0x61u8, 0x6eu8, 0x63u8, 0x65u8, 0x53u8, 0x74u8, 0x61u8, 0x72u8, 0x74u8]))];
        assert(r->Obj_0@[0].0@ =~= gps[0].0);
        assert(r->Obj_0@[0].1->Str_0@ =~= seq![0x49u8, 0x6eu8, 0x73u8, 0x74u8, 0x61u8, 0x6eu8, 0x63u8, 0x65u8, 0x53u8, 0x74u8, 0x61u8, 0x72u8, 0x74u8]);
        assert forall|i: int| 0 <= i < gps.len() implies (#[trigger] r->Obj_0@[i]).0@ == gps[i].0
            && crate::json::models(r->Obj_0@[i].1, gps[i].1) by {
            assert(crate::json::models(r->Obj_0@[0].1, gps[0].1));
        }
    }
    r
}

/// The cache configuration: where images and binaries live and whether the
/// image cache takes shortcuts.
pub struct CacheConfig {
    pub dir: Vec<u8>,
    pub skip_validation: bool,
    pub disable_image_cache: bool,
}

/// The default cache directory, `.harness-cache`.
pub fn default_cache_dir() -> (r: Vec<u8>)
    ensures
        r@ == seq![
            0x2eu8,
            0x68u8,
            0x61u8,
            0x72u8,
            0x6eu8,
            0x65u8,
            0x73u8,
            0x73u8,
            0x2du8,
            0x63u8,
            0x61u8,
            0x63u8,
            0x68u8,
            0x65u8,
        ],
{
    let d: [u8; 14] = [
        0x2e, 0x68, 0x61, 0x72, 0x6e, 0x65, 0x73, 0x73, 0x2d, 0x63, 0x61, 0x63, 0x68, 0x65,
    ];
    let r = vstd::slice::slice_to_vec(d.as_slice());
    proof {
        assert(r@ =~= seq![
            0x2eu8,
            0x68u8,
            0x61u8,
            0x72u8,
            0x6eu8,
            0x65u8,
            0x73u8,
            0x73u8,
            0x2du8,
            0x63u8,
            0x61u8,
            0x63u8,
            0x68u8,
            0x65u8,
        ]);
    }
    r
}

/// The default of flags that are on unless configured off.
pub fn default_true() -> (r: bool)
    ensures
        r == true,
{
    true
}

/// The default boot delay, in seconds.
pub fn default_5s() -> (r: u64)
    ensures
        r == 5,
{
    5
}

} // verus!
