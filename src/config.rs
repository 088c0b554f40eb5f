//! What a burn-class operation is given, and the devices a scan finds.
use vstd::prelude::*;

verus! {

/// The fewest worker threads an operation may be given.
pub const MIN_THREADS: u8 = 1;

/// The most worker threads an operation may be given.
pub const MAX_THREADS: u8 = 16;

/// A removable storage target, as a scan reported it.
#[derive(Debug)]
pub struct Device {
    pub id: String,
    pub vendor: String,
    pub model: String,
    pub size_bytes: u64,
}

impl Device {
    /// A deep copy of the device.
    pub fn duplicate(&self) -> (r: Device)
        ensures
            r == *self,
    {
        Device {
            id: self.id.clone(),
            vendor: self.vendor.clone(),
            model: self.model.clone(),
            size_bytes: self.size_bytes,
        }
    }
}

/// How the written device is made bootable, if at all.
#[derive(Clone, Copy, Debug, PartialEq, Eq, Structural)]
pub enum BootMode {
    NotBootable,
    Uefi,
    Legacy,
    Hybrid,
}

/// The block sizes a write may use.
#[derive(Clone, Copy, Debug, PartialEq, Eq, Structural)]
pub enum BlockSize {
    Kib512,
    Mib1,
    Mib2,
    Mib4,
}

/// The size in bytes of a block.
pub open spec fn block_bytes(b: BlockSize) -> nat {
    match b {
        BlockSize::Kib512 => 512 * 1024,
        BlockSize::Mib1 => 1024 * 1024,
        BlockSize::Mib2 => 2048 * 1024,
        BlockSize::Mib4 => 4096 * 1024,
    }
}

impl BlockSize {
    /// The size in bytes of a block.
    pub fn bytes(self) -> (r: u32)
        ensures
            r == block_bytes(self),
    {
        match self {
            BlockSize::Kib512 => 512 * 1024,
            BlockSize::Mib1 => 1024 * 1024,
            BlockSize::Mib2 => 2048 * 1024,
            BlockSize::Mib4 => 4096 * 1024,
        }
    }
}

/// Why a configuration was refused.
#[derive(Clone, Copy, Debug, PartialEq, Eq, Structural)]
pub enum ConfigError {
    /// No source image was chosen.
    MissingImage,
    /// No target device was chosen.
    MissingDevice,
    /// The thread count lies outside `MIN_THREADS..=MAX_THREADS`.
    ThreadCount,
}

/// The input of a burn-class operation.
#[derive(Debug)]
pub struct OperationConfig {
    pub image_path: String,
    pub device: String,
    pub threads: u8,
    pub boot_mode: BootMode,
    pub verify: bool,
    pub block_size: BlockSize,
}

impl OperationConfig {
    /// A configuration names an image and a device and a thread count in range.
    pub open spec fn wf(&self) -> bool {
        &&& self.image_path@.len() > 0
        &&& self.device@.len() > 0
        &&& MIN_THREADS <= self.threads <= MAX_THREADS
    }

    /// A configuration from its parts, refused when it lacks an image or a
    /// device (checked in that order) or when the thread count is out of range.
    pub fn new(
        image_path: String,
        device: String,
        threads: u8,
        boot_mode: BootMode,
        verify: bool,
        block_size: BlockSize,
    ) -> (r: Result<OperationConfig, ConfigError>)
        ensures
            image_path@.len() == 0 ==> r == Err::<OperationConfig, ConfigError>(
                ConfigError::MissingImage,
            ),
            image_path@.len() > 0 && device@.len() == 0 ==> r == Err::<OperationConfig, ConfigError>(
                ConfigError::MissingDevice,
            ),
            image_path@.len() > 0 && device@.len() > 0 && !(MIN_THREADS <= threads <= MAX_THREADS)
                ==> r == Err::<OperationConfig, ConfigError>(ConfigError::ThreadCount),
            r is Ok ==> r->Ok_0.wf(),
            r is Ok <==> (image_path@.len() > 0 && device@.len() > 0 && MIN_THREADS <= threads
                <= MAX_THREADS),
            r is Ok ==> (r->Ok_0 == OperationConfig {
                image_path,
                device,
                threads,
                boot_mode,
                verify,
                block_size,
            }),
    {
        if image_path.as_str().is_empty() {
            return Err(ConfigError::MissingImage);
        }
        if device.as_str().is_empty() {
            return Err(ConfigError::MissingDevice);
        }
        if threads < MIN_THREADS || threads > MAX_THREADS {
            return Err(ConfigError::ThreadCount);
        }
        Ok(OperationConfig { image_path, device, threads, boot_mode, verify, block_size })
    }

    /// A deep copy, for the execution context to own.
    pub fn duplicate(&self) -> (r: OperationConfig)
        ensures
            r == *self,
    {
        OperationConfig {
            image_path: self.image_path.clone(),
            device: self.device.clone(),
            threads: self.threads,
            boot_mode: self.boot_mode,
            verify: self.verify,
            block_size: self.block_size,
        }
    }
}

} // verus!
