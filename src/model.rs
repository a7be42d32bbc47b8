//! The decode pass as spec functions over the reader's state.
use vstd::prelude::*;
use vstd::utf8::{decode_utf8, valid_utf8};

use crate::amf3_object::AmfObjectModel;
use crate::object_info::InfoModel;
use crate::object_properties::{GenericProperties, ObjectPropertiesModel, PropertiesModel};
use crate::object_type::TypeModel;
use crate::syntax_byte::{SyntaxByte, SyntaxClass};
use crate::text::byte_list_text;

verus! {

/// The state of a decode pass.
pub ghost struct ReaderModel {
    pub buffer: Seq<u8>,
    pub head: nat,
    pub out: Seq<SyntaxByte>,
    /// 0 while values are read as AMF0, 3 once they are read as AMF3.
    pub encoding: u8,
    /// Nesting depth of AMF0 objects, used only to vary the display class.
    pub layer: u64,
    pub objects: Seq<InfoModel>,
    pub strings: Seq<Seq<char>>,
    pub is_error: bool,
    pub error_object: Option<InfoModel>,
}

/// The owner id of the bytes that follow an error, and of the entry that
/// stands for them.
pub const ERROR_ID: isize = -1;

/// Each byte of `b` with the given owner and class.
pub open spec fn tagged(b: Seq<u8>, owner: isize, color: SyntaxClass) -> Seq<SyntaxByte> {
    b.map_values(|v: u8| SyntaxByte { value: v, object_id: owner, color })
}

/// Number of bytes of a U29 at the start of `r`: up to three bytes with the
/// continuation bit set, then a last byte.
pub open spec fn u29_width(r: Seq<u8>) -> nat {
    if r.len() >= 1 && r[0] < 0x80 {
        1
    } else if r.len() >= 2 && r[1] < 0x80 {
        2
    } else if r.len() >= 3 && r[2] < 0x80 {
        3
    } else {
        4
    }
}

/// The value of the U29 at the start of `r`: seven bits from each byte, and
/// all eight bits of a fourth byte.
pub open spec fn u29_value(r: Seq<u8>) -> int {
    let w = u29_width(r);
    if w == 1 {
        r[0] as int
    } else if w == 2 {
        (r[0] % 128) * 128 + r[1]
    } else if w == 3 {
        ((r[0] % 128) * 128 + r[1] % 128) * 128 + r[2]
    } else {
        (((r[0] % 128) * 128 + r[1] % 128) * 128 + r[2] % 128) * 256 + r[3]
    }
}

/// A 29-bit field read as a two's-complement signed value.
pub open spec fn signed29(v: int) -> int {
    if v >= 0x1000_0000 {
        v - 0x2000_0000
    } else {
        v
    }
}

/// The big-endian value of eight bytes.
pub open spec fn be_u64(b: Seq<u8>) -> int {
    b[0] * 0x100_0000_0000_0000 + b[1] * 0x1_0000_0000_0000 + b[2] * 0x100_0000_0000
        + b[3] * 0x1_0000_0000 + b[4] * 0x100_0000 + b[5] * 0x1_0000 + b[6] * 0x100 + b[7]
}

/// The text of an AMF3 string reference with no table entry.
pub open spec fn missing_text() -> Seq<char> {
    "String Not Found"@
}

/// The text of an AMF3 string payload.
pub open spec fn amf3_text(b: Seq<u8>) -> Seq<char> {
    if valid_utf8(b) {
        decode_utf8(b)
    } else {
        byte_list_text(b)
    }
}

/// One level deeper, without passing the counter's limit.
pub open spec fn deeper(layer: u64) -> u64 {
    if layer < u64::MAX {
        (layer + 1) as u64
    } else {
        layer
    }
}

/// One level shallower, without passing zero.
pub open spec fn shallower(layer: u64) -> u64 {
    if layer != 0 {
        (layer - 1) as u64
    } else {
        0
    }
}

/// The display class of an AMF0 type marker.
pub open spec fn amf0_marker_class(b: u8) -> SyntaxClass {
    if b == 0x00 {
        SyntaxClass::Amf0NumberMarker
    } else if b == 0x01 {
        SyntaxClass::Amf0BoolMarker
    } else if b == 0x02 {
        SyntaxClass::Amf0StringMarker
    } else if b == 0x03 {
        SyntaxClass::Amf0ObjectMarker
    } else if b == 0x05 || b == 0x06 {
        SyntaxClass::Amf0Null
    } else if b == 0x10 {
        SyntaxClass::Amf0TypedObjectMarker
    } else if b == 0x11 {
        SyntaxClass::Amf0SwitchMarker
    } else {
        SyntaxClass::Amf0Unknown
    }
}

/// The display class of an AMF3 type marker.
pub open spec fn amf3_marker_class(b: u8) -> SyntaxClass {
    if b == 0x01 {
        SyntaxClass::Amf3Null
    } else if b == 0x02 {
        SyntaxClass::Amf3False
    } else if b == 0x03 {
        SyntaxClass::Amf3True
    } else if b == 0x04 {
        SyntaxClass::Amf3Integer
    } else if b == 0x05 {
        SyntaxClass::Amf0NumberMarker
    } else if b == 0x06 {
        SyntaxClass::Amf3String
    } else if b == 0x08 {
        SyntaxClass::Amf3Array
    } else if b == 0x0A {
        SyntaxClass::Amf3Object
    } else {
        SyntaxClass::Amf3Unknown
    }
}

/// The entry that stands for the bytes after an error.
pub open spec fn error_info() -> InfoModel {
    InfoModel { id: ERROR_ID, kind: TypeModel::Amf0Undefined, props: PropertiesModel::AmfNoProperties }
}

/// The state at the start of a pass. A command stream starts with a byte
/// that selects AMF0 (zero) or AMF3 (any other value).
pub open spec fn initial(buffer: Seq<u8>, is_command: bool) -> ReaderModel {
    let selector = is_command && buffer.len() > 0;
    ReaderModel {
        buffer,
        head: if selector { 1 } else { 0 },
        out: seq![],
        encoding: if selector && buffer[0] != 0 { 3 } else { 0 },
        layer: 0,
        objects: seq![],
        strings: seq![],
        is_error: false,
        error_object: None,
    }
}

impl ReaderModel {
    /// The position is within the input, and every id of the graph fits in
    /// `isize`.
    pub open spec fn wf(self) -> bool {
        &&& self.head <= self.buffer.len()
        &&& self.objects.len() <= isize::MAX
    }

    /// Number of bytes not yet read.
    pub open spec fn remaining(self) -> nat {
        if self.head <= self.buffer.len() {
            (self.buffer.len() - self.head) as nat
        } else {
            0
        }
    }

    /// The next `n` bytes.
    pub open spec fn ahead(self, n: nat) -> Seq<u8> {
        self.buffer.subrange(self.head as int, (self.head + n) as int)
    }

    /// The id that the next value receives.
    pub open spec fn next_id(self) -> isize {
        self.objects.len() as isize
    }

    pub open spec fn fail(self) -> ReaderModel {
        ReaderModel { is_error: true, ..self }
    }

    /// Reads the next `n` bytes and records them with an owner and a class.
    pub open spec fn consume(self, n: nat, owner: isize, color: SyntaxClass) -> ReaderModel {
        ReaderModel { head: self.head + n, out: self.out + tagged(self.ahead(n), owner, color), ..self }
    }

    /// Reserves the next id, with a placeholder entry until the value is known.
    /// A graph that already holds as many entries as `isize` can count fails
    /// the pass instead.
    pub open spec fn reserve(self, kind: TypeModel) -> ReaderModel {
        if self.objects.len() < isize::MAX {
            ReaderModel {
                objects: self.objects.push(
                    InfoModel { id: self.next_id(), kind, props: PropertiesModel::AmfNoProperties },
                ),
                ..self
            }
        } else {
            self.fail()
        }
    }

    /// Records the entry of the value with id `id`, where that id is in the
    /// graph.
    pub open spec fn put(self, id: isize, kind: TypeModel, props: PropertiesModel) -> ReaderModel {
        if 0 <= id < self.objects.len() {
            ReaderModel { objects: self.objects.update(id as int, InfoModel { id, kind, props }), ..self }
        } else {
            self
        }
    }

    /// `self` is a later state of the same pass as `s`.
    pub open spec fn extends(self, s: ReaderModel) -> bool {
        &&& self.buffer == s.buffer
        &&& self.head >= s.head
        &&& self.objects.len() >= s.objects.len()
        &&& s.is_error ==> self.is_error
        &&& self.wf()
    }

    pub open spec fn with_layer(self, layer: u64) -> ReaderModel {
        ReaderModel { layer, ..self }
    }

    /// The id given by the caller, reserved where it is the next id, or a
    /// newly reserved one.
    pub open spec fn take_id(self, object_id: Option<isize>, kind: TypeModel) -> (ReaderModel, isize) {
        match object_id {
            Some(id) => if id as int == self.objects.len() {
                (self.reserve(kind), id)
            } else {
                (self, id)
            },
            None => (self.reserve(kind), self.next_id()),
        }
    }
}

/// Reads a U29, recording its bytes; on exhaustion the bytes that were there
/// are recorded and the pass fails.
pub open spec fn read_u29(s: ReaderModel, owner: isize, color: SyntaxClass) -> (ReaderModel, Option<int>) {
    let w = u29_width(s.ahead(s.remaining()));
    if s.remaining() >= w {
        (s.consume(w, owner, color), Some(u29_value(s.ahead(w))))
    } else {
        (s.consume(s.remaining(), owner, color).fail(), None)
    }
}

/// Reads the eight bytes of a double and gives their bit pattern.
pub open spec fn read_number(s: ReaderModel, id: isize) -> (ReaderModel, Option<u64>) {
    if s.remaining() >= 8 {
        (s.consume(8, id, SyntaxClass::Amf0Number), Some(be_u64(s.ahead(8)) as u64))
    } else {
        (s.fail(), None)
    }
}

/// Reads the one byte of an AMF0 boolean into the entry `id`.
pub open spec fn read_amf0_bool(s: ReaderModel, id: isize) -> ReaderModel {
    if s.remaining() >= 1 {
        let b = s.buffer[s.head as int];
        let color = if b == 0 { SyntaxClass::Amf0BoolFalse } else { SyntaxClass::Amf0BoolTrue };
        s.consume(1, id, color).put(id, TypeModel::Amf0Bool(b != 0), PropertiesModel::AmfNoProperties)
    } else {
        s.fail()
    }
}

/// Reads the two-byte big-endian length of an AMF0 string.
pub open spec fn read_amf0_utf_length(s: ReaderModel, color: SyntaxClass, owner: isize) -> (ReaderModel, Option<nat>) {
    if s.remaining() >= 2 {
        (s.consume(2, owner, color), Some((s.ahead(2)[0] * 256 + s.ahead(2)[1]) as nat))
    } else {
        (s.fail(), None)
    }
}

/// Reads an AMF0 string: its length, then that many bytes of UTF-8. Bytes that
/// are missing or not UTF-8 fail the pass, and are left unread.
pub open spec fn read_amf0_utf8(s: ReaderModel, color: SyntaxClass, object_id: Option<isize>) -> (ReaderModel, Seq<char>) {
    let (s1, id) = s.take_id(object_id, TypeModel::Amf0Undefined);
    let (s2, n) = read_amf0_utf_length(s1, color, id);
    match n {
        None => (s2, seq![]),
        Some(n) => {
            if s2.remaining() < n || !valid_utf8(s2.ahead(n)) {
                (s2.fail(), seq![])
            } else {
                let t = decode_utf8(s2.ahead(n));
                (
                    s2.consume(n, id, color).put(id, TypeModel::Amf0String(t), PropertiesModel::Amf0StringProperties),
                    t,
                )
            }
        }
    }
}

/// Reads the bytes of an AMF3 string payload.
pub open spec fn read_amf3_payload(s: ReaderModel, n: int, owner: isize) -> (ReaderModel, Option<Seq<char>>) {
    if n < 0 || s.remaining() < n {
        (s.fail(), None)
    } else {
        (s.consume(n as nat, owner, SyntaxClass::Amf3String), Some(amf3_text(s.ahead(n as nat))))
    }
}

/// Reads an AMF3 integer into its entry and gives its signed value.
pub open spec fn read_amf3_integer(s: ReaderModel, object_id: Option<isize>) -> (ReaderModel, i32) {
    let (s1, id) = s.take_id(object_id, TypeModel::Amf3Undefined);
    let (s2, v) = read_u29(s1, id, SyntaxClass::Amf3Integer);
    match v {
        None => (s2, -1i32),
        Some(v) => {
            let i = signed29(v) as i32;
            (s2.put(id, TypeModel::Amf3Integer(i), PropertiesModel::AmfNoProperties), i)
        }
    }
}

/// Reads an AMF3 string, inline or by reference to the string table; an
/// inline string that is not empty joins the table.
pub open spec fn read_amf3_string(s: ReaderModel, object_id: Option<isize>) -> (ReaderModel, Seq<char>) {
    let (s1, id) = s.take_id(object_id, TypeModel::Amf3Undefined);
    let (s2, r) = read_u29(s1, id, SyntaxClass::Amf3Integer);
    match r {
        None => (s2, seq![]),
        Some(r) => {
            let n = r / 2;
            if r % 2 == 1 {
                if n == 0 {
                    (
                        s2.put(id, TypeModel::Amf3String(seq![]), PropertiesModel::Amf3StringProperties(
                            GenericProperties { is_reference: false, identifier: 0 },
                        )),
                        seq![],
                    )
                } else {
                    let (s3, t) = read_amf3_payload(s2, n, id);
                    match t {
                        None => (s3, seq![]),
                        Some(t) => (
                            ReaderModel { strings: s3.strings.push(t), ..s3 }.put(
                                id,
                                TypeModel::Amf3String(t),
                                PropertiesModel::Amf3StringProperties(
                                    GenericProperties { is_reference: false, identifier: n as i32 },
                                ),
                            ),
                            t,
                        ),
                    }
                }
            } else {
                let t = if n < s2.strings.len() { s2.strings[n] } else { missing_text() };
                (
                    s2.put(id, TypeModel::Amf3String(t), PropertiesModel::Amf3StringProperties(
                        GenericProperties { is_reference: true, identifier: n as i32 },
                    )),
                    t,
                )
            }
        }
    }
}

/// Reads `n` property names of an AMF3 trait, stopping at an error.
pub open spec fn trait_keys(s: ReaderModel, n: nat, acc: Seq<Seq<char>>) -> (ReaderModel, Seq<Seq<char>>)
    decreases n,
{
    if n == 0 || s.is_error {
        (s, acc)
    } else {
        let (s1, k) = read_amf3_string(s, None);
        if s1.is_error {
            (s1, acc)
        } else {
            trait_keys(s1, (n - 1) as nat, acc.push(k))
        }
    }
}

/// Reads the members of an AMF0 object after its key depth has been entered.
pub open spec fn amf0_members(s: ReaderModel, id: isize) -> ReaderModel
    decreases s.remaining(), 1nat,
{
    if s.is_error {
        s
    } else {
        let (s1, key) = read_amf0_utf8(s, SyntaxClass::Amf0ObjectKey(s.layer), None);
        if s1.is_error {
            s1
        } else if key.len() == 0 && s1.remaining() == 0 {
            s1.fail()
        } else if key.len() == 0 && s1.buffer[s1.head as int] == 0x09 {
            let s2 = s1.consume(1, id, SyntaxClass::Amf0ObjectMarker);
            s2.with_layer(shallower(s2.layer))
        } else {
            let s2 = if key.len() == 0 { s1.consume(1, id, SyntaxClass::Amf0ObjectMarker) } else { s1 };
            if s2.remaining() >= s.remaining() {
                s2
            } else {
                let s3 = amf0_value(s2).0;
                if s3.remaining() > s2.remaining() {
                    s3
                } else {
                    amf0_members(s3, id)
                }
            }
        }
    }
}

/// Reads the body of an AMF0 object into the entry `id`: its entry is
/// recorded before its members are read, one level deeper.
pub open spec fn amf0_object(s: ReaderModel, id: isize) -> ReaderModel
    decreases s.remaining(), 3nat,
{
    let s1 = s.put(id, TypeModel::Amf0Object, PropertiesModel::Amf0ObjectProperties);
    amf0_members(s1.with_layer(deeper(s1.layer)), id)
}

/// Reads the body of an AMF0 typed object into the entry `id`: a class name,
/// then members as in an object.
pub open spec fn amf0_typed_object(s: ReaderModel, id: isize) -> ReaderModel
    decreases s.remaining(), 3nat,
{
    let s1 = s.put(id, TypeModel::Amf0TypedObject, PropertiesModel::Amf0TypedObjectProperties);
    let s2 = s1.with_layer(deeper(s1.layer));
    let s3 = read_amf0_utf8(s2, SyntaxClass::Amf0TypedObjectName(s2.layer), None).0;
    if s3.is_error || s3.remaining() > s.remaining() {
        s3
    } else {
        amf0_members(s3.with_layer(deeper(s3.layer)), id)
    }
}

/// Reads one AMF0 value and gives its id, or `ERROR_ID` where no value
/// could start.
pub open spec fn amf0_value(s: ReaderModel) -> (ReaderModel, isize)
    decreases s.remaining(), 2nat,
{
    if s.is_error {
        (s, ERROR_ID)
    } else if s.remaining() == 0 {
        (s.fail(), ERROR_ID)
    } else {
        let b = s.buffer[s.head as int];
        let id = s.next_id();
        let s1 = s.consume(1, id, amf0_marker_class(b)).reserve(TypeModel::Amf0Undefined);
        let s2 = if b == 0x00 {
            let (s2, v) = read_number(s1, id);
            match v {
                Some(v) => s2.put(id, TypeModel::Amf0Number(v), PropertiesModel::AmfNoProperties),
                None => s2,
            }
        } else if b == 0x01 {
            read_amf0_bool(s1, id)
        } else if b == 0x02 {
            read_amf0_utf8(s1, SyntaxClass::Amf0String, Some(id)).0
        } else if b == 0x03 {
            if s1.remaining() >= s.remaining() {
                s1
            } else {
                amf0_object(s1, id)
            }
        } else if b == 0x05 {
            s1.put(id, TypeModel::Amf0Null, PropertiesModel::AmfNoProperties)
        } else if b == 0x06 {
            s1.put(id, TypeModel::Amf0Undefined, PropertiesModel::AmfNoProperties)
        } else if b == 0x10 {
            if s1.remaining() >= s.remaining() {
                s1
            } else {
                amf0_typed_object(s1, id)
            }
        } else if b == 0x11 {
            ReaderModel { encoding: 3, ..s1 }.put(id, TypeModel::Amf0Switch, PropertiesModel::AmfNoProperties)
        } else {
            s1.put(id, TypeModel::Amf0Undefined, PropertiesModel::AmfNoProperties)
        };
        (s2, id)
    }
}


/// Reads up to `n` AMF3 values as array elements, stopping at an error.
pub open spec fn array_items(s: ReaderModel, n: int, acc: Seq<isize>) -> (ReaderModel, Seq<isize>)
    decreases s.remaining(), 1nat, n,
{
    if n <= 0 || s.is_error {
        (s, acc)
    } else {
        let (s1, c) = amf3_value(s);
        if s1.is_error || s1.remaining() >= s.remaining() {
            (s1, acc.push(c))
        } else {
            array_items(s1, n - 1, acc.push(c))
        }
    }
}

/// Reads an AMF3 array: a U29 whose upper bits count the dense elements, then
/// the elements.
pub open spec fn read_amf3_array(s: ReaderModel, object_id: Option<isize>) -> (ReaderModel, Seq<isize>)
    decreases s.remaining(), 3nat,
{
    let (s1, id) = s.take_id(object_id, TypeModel::Amf3Undefined);
    let (s2, r) = read_u29(s1, id, SyntaxClass::Amf3Integer);
    match r {
        None => (s2, seq![]),
        Some(r) => {
            let n = r / 2;
            if s2.remaining() > s.remaining() {
                (s2, seq![])
            } else {
                let (s3, items) = array_items(s2, n, seq![]);
                (
                    s3.put(id, TypeModel::Amf3Array(items), PropertiesModel::Amf3ArrayProperties(
                        GenericProperties { is_reference: false, identifier: n as i32 },
                    )),
                    items,
                )
            }
        }
    }
}

/// `t` is the first position of a property named `k` in `p`.
pub open spec fn first_named(p: Seq<(Seq<char>, Option<isize>)>, k: Seq<char>, t: int) -> bool {
    &&& 0 <= t < p.len()
    &&& p[t].0 == k
    &&& forall|u: int| 0 <= u < t ==> (#[trigger] p[u]).0 != k
}

/// The properties `p` with `k` mapped to `v`: a pair of that name is
/// replaced, and otherwise the pair is added at the end.
pub open spec fn set_property(p: Seq<(Seq<char>, Option<isize>)>, k: Seq<char>, v: Option<isize>) -> Seq<(Seq<char>, Option<isize>)> {
    if exists|t: int| first_named(p, k, t) {
        p.update(choose|t: int| first_named(p, k, t), (k, v))
    } else {
        p.push((k, v))
    }
}

/// The first `n` declared names of an externalisable object, each without a
/// value.
pub open spec fn unread_names(keys: Seq<Seq<char>>, n: nat) -> Seq<(Seq<char>, Option<isize>)>
    decreases n,
{
    if n == 0 || n > keys.len() {
        seq![]
    } else {
        set_property(unread_names(keys, (n - 1) as nat), keys[n - 1], None)
    }
}

/// Reads one value for each declared property name, stopping at an error.
pub open spec fn sealed_values(
    s: ReaderModel,
    keys: Seq<Seq<char>>,
    i: int,
    acc: Seq<(Seq<char>, Option<isize>)>,
) -> (ReaderModel, Seq<(Seq<char>, Option<isize>)>)
    decreases s.remaining(), 1nat, keys.len() - i,
{
    if i >= keys.len() || i < 0 || s.is_error {
        (s, acc)
    } else {
        let (s1, v) = amf3_value(s);
        let acc1 = set_property(acc, keys[i], Some(v));
        if s1.is_error || s1.remaining() >= s.remaining() {
            (s1, acc1)
        } else {
            sealed_values(s1, keys, i + 1, acc1)
        }
    }
}

/// Reads name and value pairs of a dynamic object until a raw `0x01` byte,
/// the end of the input, or an error.
pub open spec fn dynamic_members(
    s: ReaderModel,
    id: isize,
    acc: Seq<(Seq<char>, Option<isize>)>,
) -> (ReaderModel, Seq<(Seq<char>, Option<isize>)>)
    decreases s.remaining(), 1nat,
{
    if s.is_error || s.remaining() == 0 {
        (s, acc)
    } else if s.buffer[s.head as int] == 0x01 {
        (s.consume(1, id, SyntaxClass::Amf3Object), acc)
    } else {
        let (s1, k) = read_amf3_string(s, None);
        if s1.is_error || s1.remaining() >= s.remaining() {
            (s1, acc)
        } else {
            let (s2, v) = amf3_value(s1);
            let acc1 = set_property(acc, k, Some(v));
            if s2.remaining() > s1.remaining() {
                (s2, acc1)
            } else {
                dynamic_members(s2, id, acc1)
            }
        }
    }
}

/// The object produced for a trait reference or an unreadable header.
pub open spec fn bare_object(is_reference: bool) -> ObjectPropertiesModel {
    ObjectPropertiesModel {
        is_reference,
        property_count: 0,
        encoding: 0,
        externalisable: false,
        dynamic: false,
        object_type: seq![],
    }
}

/// The members of an AMF3 object once its trait has been read.
pub open spec fn object_members(
    s: ReaderModel,
    id: isize,
    keys: Seq<Seq<char>>,
    externalisable: bool,
    dynamic: bool,
) -> (ReaderModel, Seq<(Seq<char>, Option<isize>)>)
    decreases s.remaining(), 2nat,
{
    if externalisable {
        (s, unread_names(keys, keys.len()))
    } else {
        let (s1, p) = sealed_values(s, keys, 0, seq![]);
        if dynamic && s1.remaining() <= s.remaining() {
            dynamic_members(s1, id, p)
        } else {
            (s1, p)
        }
    }
}

/// An AMF3 object without properties, as given for a trait reference or an
/// unreadable header.
pub open spec fn empty_object_model() -> AmfObjectModel {
    AmfObjectModel {
        property_count: 0,
        encoding: 0,
        externalisable: false,
        dynamic: false,
        object_type: seq![],
        properties: seq![],
    }
}

/// Reads the rest of an AMF3 object with an inline trait whose header bits,
/// after the two flag bits, are `t`: the class name, the declared property
/// names, then the values.
pub open spec fn inline_object(s: ReaderModel, id: isize, t: int) -> (ReaderModel, AmfObjectModel)
    decreases s.remaining(), 3nat,
{
    let encoding = t % 4;
    let externalisable = encoding % 2 == 1;
    let dynamic = (t / 2) % 2 == 1;
    let (s3, class_name) = read_amf3_string(s, None);
    let (s4, keys) = trait_keys(s3, (t / 4) as nat, seq![]);
    let (s5, props) = if s4.remaining() > s.remaining() {
        (s4, seq![])
    } else {
        object_members(s4, id, keys, externalisable, dynamic)
    };
    let info = ObjectPropertiesModel {
        is_reference: false,
        property_count: keys.len() as usize,
        encoding: encoding as usize,
        externalisable,
        dynamic,
        object_type: class_name,
    };
    (
        s5.put(id, TypeModel::Amf3Object(props), PropertiesModel::Amf3ObjectProperties(info)),
        AmfObjectModel {
            property_count: keys.len() as usize,
            encoding: encoding as i32,
            externalisable,
            dynamic,
            object_type: class_name,
            properties: props,
        },
    )
}

/// Reads an AMF3 object: a U29 trait header whose bit after the lowest tells
/// an inline trait from a trait reference. A trait reference gives an object
/// without properties.
pub open spec fn read_amf3_object(s: ReaderModel, object_id: Option<isize>) -> (ReaderModel, AmfObjectModel)
    decreases s.remaining(), 4nat,
{
    let (s1, id) = s.take_id(object_id, TypeModel::Amf3Undefined);
    let (s2, r) = read_u29(s1, id, SyntaxClass::Amf3Integer);
    match r {
        None => (s2, empty_object_model()),
        Some(r) => {
            let h = r / 2;
            if h % 2 == 0 {
                (
                    s2.put(id, TypeModel::Amf3Object(seq![]), PropertiesModel::Amf3ObjectProperties(bare_object(true))),
                    empty_object_model(),
                )
            } else if s2.remaining() > s.remaining() {
                (s2, empty_object_model())
            } else {
                inline_object(s2, id, h / 2)
            }
        }
    }
}

/// Reads one AMF3 value and gives its id, or `ERROR_ID` where no value
/// could start.
pub open spec fn amf3_value(s: ReaderModel) -> (ReaderModel, isize)
    decreases s.remaining(), 0nat,
{
    if s.is_error {
        (s, ERROR_ID)
    } else if s.remaining() == 0 {
        (s.fail(), ERROR_ID)
    } else {
        let b = s.buffer[s.head as int];
        let id = s.next_id();
        let s1 = s.consume(1, id, amf3_marker_class(b)).reserve(TypeModel::Amf3Undefined);
        let none = PropertiesModel::AmfNoProperties;
        let s2 = if b == 0x01 {
            s1.put(id, TypeModel::Amf3Null, none)
        } else if b == 0x02 {
            s1.put(id, TypeModel::Amf3False, none)
        } else if b == 0x03 {
            s1.put(id, TypeModel::Amf3True, none)
        } else if b == 0x04 {
            read_amf3_integer(s1, Some(id)).0
        } else if b == 0x05 {
            let (s2, v) = read_number(s1, id);
            match v {
                Some(v) => s2.put(id, TypeModel::Amf3Double(v), none),
                None => s2,
            }
        } else if b == 0x06 {
            read_amf3_string(s1, Some(id)).0
        } else if b == 0x08 {
            if s1.remaining() >= s.remaining() {
                s1
            } else {
                read_amf3_array(s1, Some(id)).0
            }
        } else if b == 0x0A {
            if s1.remaining() >= s.remaining() {
                s1
            } else {
                read_amf3_object(s1, Some(id)).0
            }
        } else {
            s1.put(id, TypeModel::Amf3Undefined, none)
        };
        (s2, id)
    }
}

/// Reads top-level values until the input ends; after an error, records each
/// remaining byte as an error byte.
pub open spec fn highlight_loop(s: ReaderModel) -> ReaderModel
    decreases s.remaining(),
{
    if s.remaining() == 0 {
        s
    } else if s.is_error {
        highlight_loop(s.consume(1, ERROR_ID, SyntaxClass::Error))
    } else {
        let s1 = if s.encoding == 0 { amf0_value(s).0 } else { amf3_value(s).0 };
        if s1.remaining() >= s.remaining() {
            s1
        } else {
            highlight_loop(s1)
        }
    }
}

/// A whole pass; after an error the value graph gets the entry `ERROR_ID`.
pub open spec fn highlight(s: ReaderModel) -> ReaderModel {
    let s1 = highlight_loop(s);
    if s1.is_error {
        ReaderModel { error_object: Some(error_info()), ..s1 }
    } else {
        s1
    }
}

/// The result of decoding `buffer`.
pub open spec fn decode(buffer: Seq<u8>, is_command: bool) -> ReaderModel {
    highlight(initial(buffer, is_command))
}


/// Reading `a` bytes, then `b` bytes, with one owner and class, is reading
/// `a + b` bytes.
pub proof fn lemma_consume_consume(s: ReaderModel, a: nat, b: nat, owner: isize, color: SyntaxClass)
    requires
        s.head + a + b <= s.buffer.len(),
    ensures
        s.consume(a, owner, color).consume(b, owner, color) == s.consume(a + b, owner, color),
{
    let x = s.consume(a, owner, color).consume(b, owner, color);
    let y = s.consume(a + b, owner, color);
    assert(x.out =~= y.out);
}

/// Reading no bytes changes nothing.
pub proof fn lemma_consume_zero(s: ReaderModel, owner: isize, color: SyntaxClass)
    requires
        s.wf(),
    ensures
        s.consume(0, owner, color) == s,
{
    assert(s.consume(0, owner, color).out =~= s.out);
}

/// The annotation stream of `s` holds, in order, the bytes that were read just
/// before its position: one entry for each byte read.
pub open spec fn stream_ok(s: ReaderModel) -> bool {
    &&& s.wf()
    &&& s.out.len() <= s.head
    &&& forall|k: int|
        0 <= k < s.out.len() ==> #[trigger] s.out[k].value == s.buffer[s.head - s.out.len() + k]
}

/// Reading bytes keeps the annotation stream in step with the input.
pub broadcast proof fn lemma_consume_keeps_stream(s: ReaderModel, n: nat, owner: isize, color: SyntaxClass)
    requires
        stream_ok(s),
        s.head + n <= s.buffer.len(),
    ensures
        #[trigger] stream_ok(s.consume(n, owner, color)),
{
    let t = s.consume(n, owner, color);
    assert forall|k: int| 0 <= k < t.out.len() implies #[trigger] t.out[k].value == t.buffer[t.head - t.out.len() + k] by {
        if k >= s.out.len() {
            assert(t.out[k] == tagged(s.ahead(n), owner, color)[k - s.out.len()]);
        }
    }
}

} // verus!
