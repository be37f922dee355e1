use vstd::prelude::*;
use vstd::string::StringSliceAdditionalSpecFns;
use crate::endian::{high, high_byte, join, lemma_u16_le_of_bytes, low, low_byte, u16_le};

verus! {

/// The width of the name field of a descriptor.
pub const FLEM_ID_NAME_SIZE: usize = 25;

/// The width of a serialized descriptor: three version bytes, two bytes of
/// packet size and the name field.
pub const FLEM_ID_SIZE: usize = 30;

/// The identity of an endpoint: its name, its version and the largest packet
/// it handles.
pub struct DataId {
    major: u8,
    minor: u8,
    patch: u8,
    max_packet_size: u16,
    name: [char; FLEM_ID_NAME_SIZE],
}

/// What a descriptor holds; the name is given by its bytes.
pub struct DataIdView {
    pub major: u8,
    pub minor: u8,
    pub patch: u8,
    pub max_packet_size: u16,
    pub name: Seq<u8>,
}

/// The byte at position `i` of `s`, or zero where `s` has no such position.
pub open spec fn byte_or_zero(s: Seq<u8>, i: int) -> u8 {
    if 0 <= i < s.len() {
        s[i]
    } else {
        0
    }
}

/// The first bytes of `s`, filled up with zeros to the width of the name field.
pub open spec fn padded_name(s: Seq<u8>) -> Seq<u8> {
    Seq::new(FLEM_ID_NAME_SIZE as nat, |i: int| byte_or_zero(s, i))
}

impl DataIdView {
    /// The name field has its fixed width.
    pub open spec fn wf(self) -> bool {
        self.name.len() == FLEM_ID_NAME_SIZE
    }

    /// The serialized descriptor: major, minor and patch version, the packet
    /// size with its low byte first, then the name field.
    pub open spec fn bytes(self) -> Seq<u8> {
        seq![
            self.major,
            self.minor,
            self.patch,
            low_byte(self.max_packet_size),
            high_byte(self.max_packet_size),
        ] + self.name
    }

    /// The descriptor that a byte sequence stands for. Bytes that the
    /// sequence lacks count as zero, bytes beyond the name field are ignored.
    pub open spec fn parse(data: Seq<u8>) -> DataIdView {
        DataIdView {
            major: byte_or_zero(data, 0),
            minor: byte_or_zero(data, 1),
            patch: byte_or_zero(data, 2),
            max_packet_size: u16_le(byte_or_zero(data, 3), byte_or_zero(data, 4)),
            name: Seq::new(FLEM_ID_NAME_SIZE as nat, |i: int| byte_or_zero(data, 5 + i)),
        }
    }
}

/// A descriptor is read back from its serialized form as it was.
pub proof fn law_descriptor_round_trip(id: DataIdView)
    requires
        id.wf(),
    ensures
        DataIdView::parse(id.bytes()) == id,
        id.bytes().len() == FLEM_ID_SIZE,
{
    lemma_u16_le_of_bytes(id.max_packet_size);
    assert(DataIdView::parse(id.bytes()).name =~= id.name);
}

impl View for DataId {
    type V = DataIdView;

    closed spec fn view(&self) -> DataIdView {
        DataIdView {
            major: self.major,
            minor: self.minor,
            patch: self.patch,
            max_packet_size: self.max_packet_size,
            name: Seq::new(FLEM_ID_NAME_SIZE as nat, |i: int| self.name@[i] as u8),
        }
    }
}

/// Returns the byte at position `i` of `data`, or zero where there is none.
fn byte_at(data: &[u8], i: usize) -> (b: u8)
    ensures
        b == byte_or_zero(data@, i as int),
{
    if i < data.len() {
        data[i]
    } else {
        0
    }
}

impl DataId {
    /// Every character of the name stands for one byte.
    pub closed spec fn name_in_bytes(&self) -> bool {
        forall|i: int| 0 <= i < FLEM_ID_NAME_SIZE ==> 0 <= (#[trigger] self.name@[i]) as int <= 0xFF
    }

    /// The invariant of a descriptor.
    pub open spec fn wf(&self) -> bool {
        self@.wf() && self.name_in_bytes()
    }

    /// Builds a descriptor from its fields. The name is stored byte by byte
    /// and filled up with zeros; of the packet size the low 16 bits are kept.
    pub fn new(name: &str, major: u8, minor: u8, patch: u8, packet_size: usize) -> (id: DataId)
        requires
            name.spec_bytes().len() <= FLEM_ID_NAME_SIZE,
        ensures
            id.wf(),
            id@ == (DataIdView {
                major,
                minor,
                patch,
                max_packet_size: (packet_size % 0x10000) as u16,
                name: padded_name(name.spec_bytes()),
            }),
    {
        let mut id = DataId {
            major,
            minor,
            patch,
            name: ['\0';FLEM_ID_NAME_SIZE],
            max_packet_size: (packet_size % 0x10000) as u16,
        };
        let bytes = name.as_bytes();
        let version_size: usize = name.len();
        let mut a: usize = 0;
        while a < version_size
            invariant
                a <= version_size <= FLEM_ID_NAME_SIZE,
                version_size == bytes@.len(),
                bytes@ == name.spec_bytes(),
                id.major == major,
                id.minor == minor,
                id.patch == patch,
                id.max_packet_size == (packet_size % 0x10000) as u16,
                forall|i: int| 0 <= i < a ==> (#[trigger] id.name@[i]) as int == bytes@[i] as int,
                forall|i: int| a <= i < FLEM_ID_NAME_SIZE ==> (#[trigger] id.name@[i]) as int == 0,
            decreases version_size - a,
        {
            id.name[a] = bytes[a] as char;
            a += 1;
        }
        proof {
            assert(id@.name =~= padded_name(name.spec_bytes()));
        }
        id
    }

    /// Reads a descriptor from its serialized form. Any bytes are accepted.
    pub fn from(data: &[u8]) -> (r: Option<DataId>)
        ensures
            r is Some,
            r.unwrap().wf(),
            r.unwrap()@ == DataIdView::parse(data@),
    {
        let mut buffer = ['\0';FLEM_ID_NAME_SIZE];
        let major = byte_at(data, 0);
        let minor = byte_at(data, 1);
        let patch = byte_at(data, 2);
        let max_packet_size = join(byte_at(data, 3), byte_at(data, 4));
        let mut name_counter: usize = 0;
        while name_counter < FLEM_ID_NAME_SIZE
            invariant
                name_counter <= FLEM_ID_NAME_SIZE,
                forall|i: int|
                    0 <= i < name_counter ==> (#[trigger] buffer@[i]) as int == byte_or_zero(
                        data@,
                        5 + i,
                    ) as int,
                forall|i: int|
                    name_counter <= i < FLEM_ID_NAME_SIZE ==> (#[trigger] buffer@[i]) as int == 0,
            decreases FLEM_ID_NAME_SIZE - name_counter,
        {
            buffer[name_counter] = byte_at(data, name_counter + 5) as char;
            name_counter += 1;
        }
        let id = DataId { major, minor, patch, name: buffer, max_packet_size };
        proof {
            assert(id@.name =~= DataIdView::parse(data@).name);
        }
        Some(id)
    }

    /// The name, one character for each byte of the name field.
    pub fn get_name(&self) -> (name: &[char; FLEM_ID_NAME_SIZE])
        requires
            self.wf(),
        ensures
            forall|i: int| 0 <= i < FLEM_ID_NAME_SIZE ==> name@[i] as int == self@.name[i],
    {
        proof {
            assert forall|i: int| 0 <= i < FLEM_ID_NAME_SIZE implies self.name@[i] as int
                == self@.name[i] by {
                assert(0 <= self.name@[i] as int <= 0xFF);
            }
        }
        &self.name
    }

    /// The major version.
    pub fn get_major(&self) -> (major: u8)
        ensures
            major == self@.major,
    {
        self.major
    }

    /// The minor version.
    pub fn get_minor(&self) -> (minor: u8)
        ensures
            minor == self@.minor,
    {
        self.minor
    }

    /// The patch version.
    pub fn get_patch(&self) -> (patch: u8)
        ensures
            patch == self@.patch,
    {
        self.patch
    }

    /// The size of the largest packet that the endpoint handles.
    pub fn get_max_packet_size(&self) -> (size: u16)
        ensures
            size == self@.max_packet_size,
    {
        self.max_packet_size
    }

    /// The serialized descriptor.
    pub fn as_u8_array(&self) -> (image: [u8; FLEM_ID_SIZE])
        requires
            self.wf(),
        ensures
            image@ == self@.bytes(),
    {
        let mut image = [0u8;FLEM_ID_SIZE];
        image[0] = self.major;
        image[1] = self.minor;
        image[2] = self.patch;
        image[3] = low(self.max_packet_size);
        image[4] = high(self.max_packet_size);
        let mut i: usize = 0;
        while i < FLEM_ID_NAME_SIZE
            invariant
                i <= FLEM_ID_NAME_SIZE,
                self.wf(),
                image@[0] == self.major,
                image@[1] == self.minor,
                image@[2] == self.patch,
                image@[3] == low_byte(self.max_packet_size),
                image@[4] == high_byte(self.max_packet_size),
                forall|k: int| 5 <= k < 5 + i ==> #[trigger] image@[k] == self.name@[k - 5] as u8,
            decreases FLEM_ID_NAME_SIZE - i,
        {
            image[i + 5] = self.name[i] as u8;
            i += 1;
        }
        proof {
            assert(image@ =~= self@.bytes());
        }
        image
    }
}

} // verus!
