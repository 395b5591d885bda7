//! Buffers in the memory of a WebAssembly guest, and the kernel sections of
//! a guest's binary.
use crate::text::{unsigned_decimal, unsigned_text};
use vstd::prelude::*;

verus! {

/// How a device may use a buffer.
#[derive(Clone, Copy, PartialEq, Eq, Structural, Debug)]
pub enum BufferAccessKind {
    Read,
    Write,
    ReadWrite,
}

/// The kinds of devices.
#[derive(Clone, Copy, PartialEq, Eq, Structural, Debug)]
pub enum DeviceKind {
    Cpu,
    DiscreteGpu,
    IntegratedGpu,
}

/// A buffer that lives in the memory of the guest: it knows how long it is
/// and, once it was written, where in the memory it starts.
#[derive(Clone, Copy, PartialEq, Eq, Structural, Debug)]
pub struct WasmMemoryBuffer {
    /// Where the buffer starts in the guest's memory, once it was written.
    pub offset: Option<u32>,
    pub length: u32,
    pub access: BufferAccessKind,
}

/// The text of the failure of writing a slice of `slice_len` bytes to a
/// buffer of `len` bytes.
pub open spec fn size_mismatch_text(slice_len: u32, len: u32) -> Seq<char> {
    "The slice to write did not match the buffer size: "@ + unsigned_text(slice_len as u64)
        + " != "@ + unsigned_text(len as u64)
}

/// `v` with the `len` elements from `to` on replaced by those from `from`
/// on.
pub open spec fn copied_within<T>(v: Seq<T>, from: int, to: int, len: int) -> Seq<T> {
    Seq::new(
        v.len(),
        |i: int|
            if to <= i < to + len {
                v[from + (i - to)]
            } else {
                v[i]
            },
    )
}

/// Copies the `len` elements from `from` on to the place from `to` on,
/// within one vector. The two places must not overlap.
pub fn copy_within_a_slice<T: Copy>(v: &mut Vec<T>, from: usize, to: usize, len: usize)
    requires
        from + len <= old(v)@.len(),
        to + len <= old(v)@.len(),
        from + len <= to || to + len <= from,
    ensures
        final(v)@ == copied_within(old(v)@, from as int, to as int, len as int),
{
    let n = v.len();
    let mut k: usize = 0;
    while k < len
        invariant
            k <= len,
            n == v@.len(),
            from + len <= v@.len(),
            to + len <= v@.len(),
            from + len <= to || to + len <= from,
            v@.len() == old(v)@.len(),
            v@ == copied_within(old(v)@, from as int, to as int, k as int),
        decreases len - k,
    {
        let x = v[from + k];
        v[to + k] = x;
        proof {
            assert(v@ =~= copied_within(old(v)@, from as int, to as int, k + 1));
        }
        k += 1;
    }
}

impl WasmMemoryBuffer {
    pub open spec fn spec_len(&self) -> u32 {
        self.length
    }

    pub open spec fn spec_access(&self) -> BufferAccessKind {
        self.access
    }

    /// A buffer of `size` bytes that was not written yet.
    pub fn new(size: u32, access: BufferAccessKind) -> (r: Self)
        ensures
            r.offset is None,
            r.spec_len() == size,
            r.spec_access() == access,
    {
        WasmMemoryBuffer { offset: None, length: size, access }
    }

    /// The size of the buffer in bytes.
    pub fn len(&self) -> (r: u32)
        ensures
            r == self.spec_len(),
    {
        self.length
    }

    /// How a device may use the buffer.
    pub fn access(&self) -> (r: BufferAccessKind)
        ensures
            r == self.spec_access(),
    {
        self.access
    }

    /// Writes a slice of the guest's memory to the buffer: no data is
    /// copied, the buffer records where the slice starts. The slice must be
    /// as long as the buffer.
    pub fn write(&mut self, slice_len: u32, slice_offset: u32) -> (r: Result<(), String>)
        ensures
            final(self).spec_len() == old(self).spec_len(),
            final(self).spec_access() == old(self).spec_access(),
            slice_len == old(self).spec_len() ==> r is Ok && final(self).offset == Some(
                slice_offset,
            ),
            slice_len != old(self).spec_len() ==> (r matches Err(m) && m@ == size_mismatch_text(
                slice_len,
                old(self).spec_len(),
            )) && final(self).offset == old(self).offset,
    {
        if slice_len == self.length {
            self.offset = Some(slice_offset);
            Ok(())
        } else {
            let mut out = String::from_str("The slice to write did not match the buffer size: ");
            out.append(unsigned_decimal(slice_len as u64).as_str());
            out.append(" != ");
            out.append(unsigned_decimal(self.length as u64).as_str());
            Err(out)
        }
    }

    /// Reads the buffer into a slice of the guest's memory: the bytes of
    /// the buffer are copied to the slice, within the memory. The buffer
    /// must have been written, and the slice must not overlap it.
    pub fn read(&self, memory: &mut Vec<u8>, slice_len: u32, slice_offset: u32)
        requires
            self.offset is Some,
            slice_len == self.spec_len(),
            self.offset.unwrap() + slice_len <= old(memory)@.len(),
            slice_offset + slice_len <= old(memory)@.len(),
            self.offset.unwrap() + slice_len <= slice_offset || slice_offset + slice_len
                <= self.offset.unwrap(),
        ensures
            final(memory)@ == copied_within(
                old(memory)@,
                self.offset.unwrap() as int,
                slice_offset as int,
                slice_len as int,
            ),
    {
        copy_within_a_slice(
            memory,
            self.offset.unwrap() as usize,
            slice_offset as usize,
            slice_len as usize,
        );
    }
}

/// The device that runs a kernel on a pool of threads.
#[derive(Clone, Copy, PartialEq, Eq, Structural, Debug)]
pub struct CpuDevice;

/// The device that runs a kernel on one thread.
#[derive(Clone, Copy, PartialEq, Eq, Structural, Debug)]
pub struct CpuSingleThreadedDevice;

impl CpuDevice {
    pub fn new() -> (r: Self) {
        CpuDevice
    }

    pub fn kind(&self) -> (r: DeviceKind)
        ensures
            r == DeviceKind::Cpu,
    {
        DeviceKind::Cpu
    }

    pub fn name(&self) -> (r: String)
        ensures
            r@ == "thread pool implementation"@,
    {
        String::from_str("thread pool implementation")
    }

    /// A buffer for this device: one in the guest's memory, of as many
    /// bytes as the bits of `size` say when they are read without a sign.
    pub fn create_buffer(&self, size: i32, access: BufferAccessKind) -> (r: WasmMemoryBuffer)
        ensures
            r.offset is None,
            r.spec_len() == size as u32,
            r.spec_access() == access,
    {
        WasmMemoryBuffer::new(#[verifier::truncate] (size as u32), access)
    }
}

impl CpuSingleThreadedDevice {
    pub fn new() -> (r: Self) {
        CpuSingleThreadedDevice
    }

    pub fn kind(&self) -> (r: DeviceKind)
        ensures
            r == DeviceKind::Cpu,
    {
        DeviceKind::Cpu
    }

    pub fn name(&self) -> (r: String)
        ensures
            r@ == "single-threaded implementation"@,
    {
        String::from_str("single-threaded implementation")
    }

    /// A buffer for this device: one in the guest's memory, of as many
    /// bytes as the bits of `size` say when they are read without a sign.
    pub fn create_buffer(&self, size: i32, access: BufferAccessKind) -> (r: WasmMemoryBuffer)
        ensures
            r.offset is None,
            r.spec_len() == size as u32,
            r.spec_access() == access,
    {
        WasmMemoryBuffer::new(#[verifier::truncate] (size as u32), access)
    }
}

/// A device that can run kernels.
#[derive(Clone, Copy, PartialEq, Eq, Structural, Debug)]
pub enum Device {
    Cpu(CpuDevice),
    CpuSingleThreaded(CpuSingleThreadedDevice),
}

/// The devices that are always there: the processor with a pool of threads,
/// and the processor with one thread, in this order.
pub fn discover() -> (r: Vec<Device>)
    ensures
        r@ == seq![Device::Cpu(CpuDevice), Device::CpuSingleThreaded(CpuSingleThreadedDevice)],
{
    let mut devices: Vec<Device> = Vec::new();
    devices.push(Device::Cpu(CpuDevice::new()));
    devices.push(Device::CpuSingleThreaded(CpuSingleThreadedDevice::new()));
    assert(devices@ =~= seq![
        Device::Cpu(CpuDevice),
        Device::CpuSingleThreaded(CpuSingleThreadedDevice),
    ]);
    devices
}

/// The number that four bytes hold, the least significant first.
pub open spec fn le_u32(b0: u8, b1: u8, b2: u8, b3: u8) -> u32 {
    (b0 as u32) | ((b1 as u32) << 8u32) | ((b2 as u32) << 16u32) | ((b3 as u32) << 24u32)
}

/// A kernel of a guest's binary: the index of the kernel's function in the
/// guest's table, and the bytes of the kernel's code.
#[derive(Debug)]
pub struct KernelSection(pub u32, pub Vec<u8>);

impl KernelSection {
    /// The kernel that the data of a custom section holds: the first four
    /// bytes are the index of the function, the least significant first,
    /// and the others are the code. `None` where there are fewer than four
    /// bytes.
    pub fn from_section_data(data: &Vec<u8>) -> (r: Option<Self>)
        ensures
            data@.len() < 4 ==> r is None,
            data@.len() >= 4 ==> (r matches Some(k) && k.0 == le_u32(
                data@[0],
                data@[1],
                data@[2],
                data@[3],
            ) && k.1@ == data@.subrange(4, data@.len() as int)),
    {
        if data.len() < 4 {
            return None;
        }
        let index = (data[0] as u32) | ((data[1] as u32) << 8u32) | ((data[2] as u32) << 16u32) | ((
        data[3] as u32) << 24u32);
        let mut code: Vec<u8> = Vec::new();
        let mut k: usize = 4;
        while k < data.len()
            invariant
                4 <= k <= data@.len(),
                code@ == data@.subrange(4, k as int),
            decreases data@.len() - k,
        {
            code.push(data[k]);
            proof {
                assert(code@ =~= data@.subrange(4, k + 1));
            }
            k += 1;
        }
        Some(KernelSection(index, code))
    }
}

} // verus!
