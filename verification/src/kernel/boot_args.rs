//! What the boot loader tells the kernel.

use vstd::prelude::*;

verus! {

/// Bytes of the command line.
pub const BOOT_LINE_LENGTH: usize = 1024;

/// Revision of the arguments.
pub const KBOOT_ARGS_REVISION2: u16 = 2;

/// Version of the arguments.
pub const KBOOT_ARGS_VERSION2: u16 = 2;

/// The display that the firmware set up.
#[derive(Clone, Copy, Debug, PartialEq, Eq, Structural)]
pub struct BootVideo {
    /// Address of the frame buffer.
    pub v_base_addr: u64,
    /// Display code.
    pub v_display: u64,
    /// Bytes in a row of pixels.
    pub v_row_bytes: u64,
    /// Pixels in a row.
    pub v_width: u64,
    /// Rows of pixels.
    pub v_height: u64,
    /// Bits of a pixel.
    pub v_depth: u64,
}

/// The arguments of the kernel.
#[derive(Clone, Copy)]
pub struct BootArgs {
    /// Revision of this record.
    pub revision: u16,
    /// Version of this record.
    pub version: u16,
    /// Virtual base of the kernel.
    pub virt_base: u64,
    /// First address of memory.
    pub phys_base: u64,
    /// Size of the memory that the kernel may use.
    pub mem_size: u64,
    /// The address after the kernel's last segment.
    pub top_of_kernel_data: u64,
    /// The display.
    pub video: BootVideo,
    /// Machine type.
    pub machine_type: u32,
    /// Address of the device tree.
    pub device_tree_p: u64,
    /// Size of the device tree.
    pub device_tree_length: u32,
    /// Command line, closed by a zero byte.
    pub command_line: [u8; BOOT_LINE_LENGTH],
    /// Flags.
    pub boot_flags: u64,
    /// Size of the memory of the machine.
    pub mem_size_actual: u64,
}

impl BootArgs {
    /// Whether nothing but revision and version is set.
    pub open spec fn is_zeroed(self) -> bool {
        &&& self.revision == KBOOT_ARGS_REVISION2
        &&& self.version == KBOOT_ARGS_VERSION2
        &&& self.virt_base == 0
        &&& self.phys_base == 0
        &&& self.mem_size == 0
        &&& self.top_of_kernel_data == 0
        &&& self.video == BootVideo {
            v_base_addr: 0,
            v_display: 0,
            v_row_bytes: 0,
            v_width: 0,
            v_height: 0,
            v_depth: 0,
        }
        &&& self.machine_type == 0
        &&& self.device_tree_p == 0
        &&& self.device_tree_length == 0
        &&& self.command_line@ == Seq::new(BOOT_LINE_LENGTH as nat, |i: int| 0u8)
        &&& self.boot_flags == 0
        &&& self.mem_size_actual == 0
    }

    /// Arguments in which nothing but revision and version is set.
    pub fn zeroed() -> (r: BootArgs)
        ensures
            r.is_zeroed(),
    {
        let command_line: [u8; BOOT_LINE_LENGTH] = [0u8; BOOT_LINE_LENGTH];
        assert(command_line@ =~= Seq::new(BOOT_LINE_LENGTH as nat, |i: int| 0u8));
        BootArgs {
            revision: KBOOT_ARGS_REVISION2,
            version: KBOOT_ARGS_VERSION2,
            virt_base: 0,
            phys_base: 0,
            mem_size: 0,
            top_of_kernel_data: 0,
            video: BootVideo {
                v_base_addr: 0,
                v_display: 0,
                v_row_bytes: 0,
                v_width: 0,
                v_height: 0,
                v_depth: 0,
            },
            machine_type: 0,
            device_tree_p: 0,
            device_tree_length: 0,
            command_line,
            boot_flags: 0,
            mem_size_actual: 0,
        }
    }
}

} // verus!
