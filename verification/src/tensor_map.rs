//! What the driver is asked for when a matrix is made known to the copy engine.
use vstd::prelude::*;

verus! {

/// Element type of a matrix.
#[derive(Clone, Copy, PartialEq, Eq, Structural, Debug)]
pub enum DataType {
    BFloat16,
    Float32,
}

/// Order of 16-byte chunks in shared memory: as they come, or exchanged within
/// 128-byte rows as the tensor core wants them.
#[derive(Clone, Copy, PartialEq, Eq, Structural, Debug)]
pub enum Swizzle {
    Plain,
    Bytes128,
}

/// Interleaving of the channels of a matrix.
#[derive(Clone, Copy, PartialEq, Eq, Structural, Debug)]
pub enum Interleave {
    Off,
    Bytes16,
    Bytes32,
}

/// Size to which loads are promoted in the second-level cache.
#[derive(Clone, Copy, PartialEq, Eq, Structural, Debug)]
pub enum L2Promotion {
    Off,
    Bytes64,
    Bytes128,
    Bytes256,
}

/// What a box is filled up with beyond the edge of the matrix: zeros, or a
/// number that is none.
#[derive(Clone, Copy, PartialEq, Eq, Structural, Debug)]
pub enum OobFill {
    Zeros,
    NotANumber,
}

/// A row-major matrix and the box in which it is copied: all that the driver is
/// told. Dimensions go from the innermost outwards.
#[derive(Clone, Copy, PartialEq, Eq, Debug)]
pub struct TensorMap {
    pub data_type: DataType,
    pub rank: u32,
    pub global_address: u64,
    pub global_dim: [u64; 2],
    pub global_strides: [u64; 1],
    pub box_dim: [u32; 2],
    pub element_strides: [u32; 2],
    pub interleave: Interleave,
    pub swizzle: Swizzle,
    pub l2_promotion: L2Promotion,
    pub oob_fill: OobFill,
}

/// Bytes of an element.
pub open spec fn size_of(data_type: DataType) -> int {
    match data_type {
        DataType::BFloat16 => 2,
        DataType::Float32 => 4,
    }
}

impl TensorMap {
    /// The map describes a `height`×`width` matrix copied in boxes of
    /// `tile_height`×`tile_width`, without interleaving or promotion in the
    /// cache and with zeros beyond the edge.
    pub open spec fn describes(
        self,
        data_type: DataType,
        global_address: u64,
        width: u64,
        height: u64,
        tile_width: u32,
        tile_height: u32,
    ) -> bool {
        &&& self.data_type == data_type
        &&& self.rank == 2
        &&& self.global_address == global_address
        &&& self.global_dim@ == seq![width, height]
        &&& self.global_strides@.len() == 1
        &&& self.global_strides@[0] == width * size_of(data_type)
        &&& self.box_dim@ == seq![tile_width, tile_height]
        &&& self.element_strides@ == seq![1u32, 1u32]
        &&& self.interleave is Off
        &&& self.l2_promotion is Off
        &&& self.oob_fill is Zeros
    }

    /// Bytes of a row of the box.
    pub open spec fn inner_bytes(self) -> int {
        self.box_dim@[0] * size_of(self.data_type)
    }

    /// Bytes of the box.
    pub open spec fn box_bytes(self) -> int {
        self.inner_bytes() * self.box_dim@[1]
    }
}

/// Map of a matrix of bf16, exchanged within 128 bytes while it is copied.
///
/// The exchange needs a box whose rows are exactly 128 bytes long.
pub fn create_tma_descriptor(
    global_address: u64,
    width: u64,
    height: u64,
    tile_width: u32,
    tile_height: u32,
) -> (r: TensorMap)
    requires
        width * 2 <= u64::MAX,
    ensures
        r.describes(
            DataType::BFloat16,
            global_address,
            width,
            height,
            tile_width,
            tile_height,
        ),
        r.swizzle is Bytes128,
{
    let r: TensorMap = TensorMap {
        data_type: DataType::BFloat16,
        rank: 2,
        global_address,
        global_dim: [width, height],
        global_strides: [width * 2],
        box_dim: [tile_width, tile_height],
        element_strides: [1, 1],
        interleave: Interleave::Off,
        swizzle: Swizzle::Bytes128,
        l2_promotion: L2Promotion::Off,
        oob_fill: OobFill::Zeros,
    };
    assert(r.global_dim@ =~= seq![width, height]);
    assert(r.box_dim@ =~= seq![tile_width, tile_height]);
    assert(r.element_strides@ =~= seq![1u32, 1u32]);
    r
}

/// Map of a matrix of singles, copied as it is.
pub fn create_tma_descriptor_f32(
    global_address: u64,
    width: u64,
    height: u64,
    tile_width: u32,
    tile_height: u32,
) -> (r: TensorMap)
    requires
        width * 4 <= u64::MAX,
    ensures
        r.describes(DataType::Float32, global_address, width, height, tile_width, tile_height),
        r.swizzle is Plain,
{
    let r: TensorMap = TensorMap {
        data_type: DataType::Float32,
        rank: 2,
        global_address,
        global_dim: [width, height],
        global_strides: [width * 4],
        box_dim: [tile_width, tile_height],
        element_strides: [1, 1],
        interleave: Interleave::Off,
        swizzle: Swizzle::Plain,
        l2_promotion: L2Promotion::Off,
        oob_fill: OobFill::Zeros,
    };
    assert(r.global_dim@ =~= seq![width, height]);
    assert(r.box_dim@ =~= seq![tile_width, tile_height]);
    assert(r.element_strides@ =~= seq![1u32, 1u32]);
    r
}

/// The code with which the driver accepts a map.
pub const SUCCESS: u32 = 0;

/// The driver has refused a map.
#[derive(Clone, Copy, PartialEq, Eq, Structural, Debug)]
pub struct EncodeError {
    pub data_type: DataType,
    pub code: u32,
}

/// What the driver's answer to a map means.
pub fn encoded(data_type: DataType, code: u32) -> (r: Result<(), EncodeError>)
    ensures
        r is Ok <==> code == SUCCESS,
        r matches Err(e) ==> e == (EncodeError { data_type, code }),
{
    if code != SUCCESS {
        Err(EncodeError { data_type, code })
    } else {
        Ok(())
    }
}

/// A map leads to the entries of a row-major matrix: row and column, by the
/// strides, give the address of the entry, and rows and columns are those of the
/// matrix and of the box. All else is as a plain copy needs it.
pub proof fn law_map_leads_to_row_major_entries(
    map: TensorMap,
    data_type: DataType,
    address: u64,
    width: u64,
    height: u64,
    tile_width: u32,
    tile_height: u32,
    row: int,
    col: int,
)
    requires
        map.describes(data_type, address, width, height, tile_width, tile_height),
    ensures
        ({
            let bytes = if data_type is BFloat16 {
                2int
            } else {
                4int
            };
            &&& map.data_type == data_type
            &&& map.rank == 2
            &&& map.global_dim@[0] == width && map.global_dim@[1] == height
            &&& map.box_dim@[0] == tile_width && map.box_dim@[1] == tile_height
            &&& map.element_strides@[0] == 1 && map.element_strides@[1] == 1
            &&& map.global_address + row * map.global_strides@[0] + col * bytes == address + (row
                * width + col) * bytes
            &&& map.interleave is Off && map.l2_promotion is Off && map.oob_fill is Zeros
        }),
{
    let bytes = if data_type is BFloat16 {
        2int
    } else {
        4int
    };
    assert(map.global_strides@[0] == width * bytes);
    assert(row * (width * bytes) + col * bytes == (row * width + col) * bytes) by (nonlinear_arith);
}

} // verus!
