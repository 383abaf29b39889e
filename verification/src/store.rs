//! What the tool runs on, and where its storage is.
use crate::boot::Bootloader;
use vstd::prelude::*;

verus! {

/// The physical root, below the root that is booted.
pub const SYSROOT: &'static str = "sysroot";

/// The directory of the composefs repository.
pub const COMPOSEFS: &'static str = "composefs";

/// The mode of that directory.
pub const COMPOSEFS_MODE: u32 = 0o700;

/// The directory of the tool's own data.
pub const BOOTC_ROOT: &'static str = "ostree/bootc";

/// What the kernel options say of the booted root file system.
pub struct ComposefsCmdline {
    /// Verification is optional.
    pub insecure: bool,
    pub digest: String,
}

/// What the tool runs on.
pub enum Environment {
    /// A system that ostree booted.
    OstreeBooted,
    /// A system that composefs booted.
    ComposefsBooted(ComposefsCmdline),
    /// A container.
    Container,
    /// Anything else.
    Other,
}

impl Environment {
    /// Tells what the tool runs on. A container is one whatever else holds, and composefs comes before
    /// ostree.
    pub fn detect(in_container: bool, composefs: Option<ComposefsCmdline>, ostree_booted: bool) -> (r:
        Self)
        ensures
            r == if in_container {
                Environment::Container
            } else {
                match composefs {
                    Some(c) => Environment::ComposefsBooted(c),
                    None => if ostree_booted {
                        Environment::OstreeBooted
                    } else {
                        Environment::Other
                    },
                }
            },
    {
        if in_container {
            return Environment::Container;
        }
        match composefs {
            Some(c) => Environment::ComposefsBooted(c),
            None => if ostree_booted {
                Environment::OstreeBooted
            } else {
                Environment::Other
            },
        }
    }

    /// Whether a mount namespace must be entered before storage is loaded, so that the system's root
    /// does not stay writable: on a booted system.
    pub fn needs_mount_namespace(&self) -> (r: bool)
        ensures
            r == (self is OstreeBooted || self is ComposefsBooted),
    {
        match self {
            Environment::OstreeBooted => true,
            Environment::ComposefsBooted(_) => true,
            Environment::Container => false,
            Environment::Other => false,
        }
    }
}

/// Where the boot entries of a composefs system are.
#[derive(Debug, Clone, Copy, PartialEq, Eq, Structural)]
pub enum BootDir {
    /// The boot directory of the physical root.
    SysrootBoot,
    /// The EFI system partition.
    Esp,
}

/// Which storage a system has.
#[derive(Debug, Clone, Copy, PartialEq, Eq, Structural)]
pub enum StorageKind {
    /// A composefs repository.
    Composefs { insecure: bool },
    /// An ostree repository.
    Ostree,
    /// None: the system is not booted.
    Nothing,
}

/// How the storage of a system is opened.
#[derive(Debug, Clone, Copy, PartialEq, Eq, Structural)]
pub struct StoragePlan {
    /// The system's root must be made writable first.
    pub remount: bool,
    pub kind: StorageKind,
}

/// Where the boot entries of a composefs system are, by its boot loader.
pub fn boot_dir_of(bootloader: Bootloader) -> (r: BootDir)
    ensures
        r == if bootloader == Bootloader::Grub {
            BootDir::SysrootBoot
        } else {
            BootDir::Esp
        },
{
    match bootloader {
        Bootloader::Grub => BootDir::SysrootBoot,
        Bootloader::Systemd => BootDir::Esp,
    }
}

/// How the storage of a system is opened.
pub open spec fn storage_plan(env: Environment) -> StoragePlan {
    StoragePlan {
        remount: env is OstreeBooted || env is ComposefsBooted,
        kind: match env {
            Environment::ComposefsBooted(c) => StorageKind::Composefs { insecure: c.insecure },
            Environment::OstreeBooted => StorageKind::Ostree,
            _ => StorageKind::Nothing,
        },
    }
}

/// Decides how the storage of a system is opened.
pub fn plan_storage(env: &Environment) -> (r: StoragePlan)
    ensures
        r == storage_plan(*env),
{
    let kind = match env {
        Environment::ComposefsBooted(c) => StorageKind::Composefs { insecure: c.insecure },
        Environment::OstreeBooted => StorageKind::Ostree,
        Environment::Container => StorageKind::Nothing,
        Environment::Other => StorageKind::Nothing,
    };
    StoragePlan { remount: env.needs_mount_namespace(), kind }
}

/// The system's root is made writable exactly where there is storage on it.
pub proof fn law_storage_needs_namespace(env: Environment)
    ensures
        storage_plan(env).remount <==> storage_plan(env).kind != StorageKind::Nothing,
{
}

/// Whether a booted system's storage is composefs: it is if the kernel options name a composefs root,
/// else it is ostree.
pub fn storage_is_composefs(composefs: Option<&ComposefsCmdline>) -> (r: bool)
    ensures
        r == composefs is Some,
{
    match composefs {
        Some(_) => true,
        None => false,
    }
}

/// The physical root, from the directory of an ostree system: below it where the system is booted,
/// else the directory itself.
pub fn physical_root(is_booted: bool) -> (r: Option<&'static str>)
    ensures
        crate::text::opt_slice_view(r) == if is_booted {
            Some(SYSROOT@)
        } else {
            None
        },
{
    if is_booted {
        Some(SYSROOT)
    } else {
        None
    }
}

/// Where the security policy for image storage comes from.
#[derive(Debug, Clone, Copy, PartialEq, Eq, Structural)]
pub enum PolicySource {
    /// The root of the container that runs.
    ContainerRoot,
    /// The deployment that is booted.
    BootedDeployment,
}

/// Decides where the security policy for image storage comes from.
pub fn policy_source(has_booted_deployment: bool) -> (r: PolicySource)
    ensures
        r == if has_booted_deployment {
            PolicySource::BootedDeployment
        } else {
            PolicySource::ContainerRoot
        },
{
    if has_booted_deployment {
        PolicySource::BootedDeployment
    } else {
        PolicySource::ContainerRoot
    }
}

/// Whether a composefs repository that is made on an ostree system goes without verification: it
/// does what the ostree repository does.
pub fn repository_is_insecure(ostree_verity: bool) -> (r: bool)
    ensures
        r == !ostree_verity,
{
    !ostree_verity
}

/// What a system is booted from is what it stores images in: a composefs repository that is verified
/// as the command line says, an ostree repository, or nothing where nothing is booted.
pub proof fn law_storage_kind(env: Environment)
    ensures
        storage_plan(env).kind is Composefs <==> env is ComposefsBooted,
        storage_plan(env).kind is Ostree <==> env is OstreeBooted,
        storage_plan(env).kind is Nothing <==> env is Container || env is Other,
        env matches Environment::ComposefsBooted(c) ==> storage_plan(env).kind
            == (StorageKind::Composefs { insecure: c.insecure }),
        env is Container || env is Other ==> !storage_plan(env).remount,
{
}

} // verus!
