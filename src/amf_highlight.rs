use vstd::prelude::*;

use crate::amf3_object::{AmfObject, AmfObjectModel};
use crate::model::{
    amf0_marker_class, amf0_members, amf0_object, amf0_typed_object, amf0_value,
    amf3_marker_class, amf3_value, array_items, bare_object, decode, deeper, dynamic_members,
    empty_object_model, highlight, highlight_loop, initial, inline_object, lemma_consume_consume, lemma_consume_zero,
    object_members, read_amf0_bool, read_amf0_utf8, read_amf0_utf_length, read_amf3_array,
    read_amf3_integer, read_amf3_object, read_amf3_payload, read_amf3_string, read_number,
    read_u29, sealed_values, trait_keys, ReaderModel, ERROR_ID, first_named, set_property,
    unread_names,
};
use crate::object_info::{InfoModel, ObjectInfo};
use crate::object_properties::{GenericProperties, ObjectProperties, PropertiesModel, TypeProperties};
use crate::object_type::{lemma_properties_view_push, properties_view, ObjectType, TypeModel};
use crate::syntax_byte::{SyntaxByte, SyntaxClass};
use crate::text::{byte_list_string, utf8_to_string};

verus! {

/// A decode pass over one buffer: the reader's position, the annotation
/// stream, the value graph and the string table.
pub struct AMFReader {
    buffer: Vec<u8>,
    read_head: usize,
    out: Vec<SyntaxByte>,
    encoding: u8,
    current_layer: u64,
    objects: Vec<ObjectInfo>,
    strings: Vec<String>,
    is_error: bool,
    error_object: Option<ObjectInfo>,
}

/// The model of one graph entry.
pub open spec fn info_view(o: ObjectInfo) -> InfoModel {
    o@
}

/// The characters of a string.
pub open spec fn string_view(s: String) -> Seq<char> {
    s@
}

/// The display class of an AMF0 type marker.
fn amf0_class_of(b: u8) -> (r: SyntaxClass)
    ensures
        r == amf0_marker_class(b),
{
    match b {
        0x00 => SyntaxClass::Amf0NumberMarker,
        0x01 => SyntaxClass::Amf0BoolMarker,
        0x02 => SyntaxClass::Amf0StringMarker,
        0x03 => SyntaxClass::Amf0ObjectMarker,
        0x05 | 0x06 => SyntaxClass::Amf0Null,
        0x10 => SyntaxClass::Amf0TypedObjectMarker,
        0x11 => SyntaxClass::Amf0SwitchMarker,
        _ => SyntaxClass::Amf0Unknown,
    }
}

/// The display class of an AMF3 type marker.
fn amf3_class_of(b: u8) -> (r: SyntaxClass)
    ensures
        r == amf3_marker_class(b),
{
    match b {
        0x01 => SyntaxClass::Amf3Null,
        0x02 => SyntaxClass::Amf3False,
        0x03 => SyntaxClass::Amf3True,
        0x04 => SyntaxClass::Amf3Integer,
        0x05 => SyntaxClass::Amf0NumberMarker,
        0x06 => SyntaxClass::Amf3String,
        0x08 => SyntaxClass::Amf3Array,
        0x0A => SyntaxClass::Amf3Object,
        _ => SyntaxClass::Amf3Unknown,
    }
}

/// An element-wise copy of a list of ids.
fn copy_ids(v: &Vec<isize>) -> (r: Vec<isize>)
    ensures
        r@ == v@,
{
    let mut r: Vec<isize> = Vec::new();
    let mut i: usize = 0;
    while i < v.len()
        invariant
            i <= v@.len(),
            r@ =~= v@.subrange(0, i as int),
        decreases v@.len() - i,
    {
        r.push(v[i]);
        i = i + 1;
    }
    proof {
        assert(r@ =~= v@);
    }
    r
}

/// An element-wise copy of a list of named properties.
fn copy_properties(v: &Vec<(String, Option<isize>)>) -> (r: Vec<(String, Option<isize>)>)
    ensures
        properties_view(r@) == properties_view(v@),
{
    let mut r: Vec<(String, Option<isize>)> = Vec::new();
    let mut i: usize = 0;
    while i < v.len()
        invariant
            i <= v@.len(),
            properties_view(r@) =~= properties_view(v@.subrange(0, i as int)),
        decreases v@.len() - i,
    {
        let name = v[i].0.clone();
        let value = v[i].1;
        let ghost before = r@;
        r.push((name, value));
        proof {
            lemma_properties_view_push(before, (name, value));
            assert(v@.subrange(0, i + 1) =~= v@.subrange(0, i as int).push(v@[i as int]));
            lemma_properties_view_push(v@.subrange(0, i as int), v@[i as int]);
        }
        i = i + 1;
    }
    proof {
        assert(v@.subrange(0, v@.len() as int) =~= v@);
    }
    r
}

/// Maps the name `k` to `v` in `props`: a pair of that name is replaced, and
/// otherwise the pair is added at the end.
fn map_property(props: &mut Vec<(String, Option<isize>)>, k: String, v: Option<isize>)
    ensures
        properties_view(final(props)@) == set_property(properties_view(old(props)@), k@, v),
{
    let ghost p0 = properties_view(props@);
    let mut t: usize = 0;
    while t < props.len()
        invariant
            p0 == properties_view(old(props)@),
            props@ == old(props)@,
            t <= props@.len(),
            forall|u: int| 0 <= u < t ==> (#[trigger] p0[u]).0 != k@,
        decreases props@.len() - t,
    {
        if props[t].0 == k {
            let ghost kv = k@;
            proof {
                assert(first_named(p0, kv, t as int));
                let c = choose|c: int| first_named(p0, kv, c);
                assert(c == t) by {
                    if c < t {
                        assert(p0[c].0 != kv);
                    } else if c > t {
                        assert(p0[t as int].0 != kv);
                    }
                }
            }
            props.set(t, (k, v));
            proof {
                assert(properties_view(props@) =~= p0.update(t as int, (kv, v)));
            }
            return;
        }
        t = t + 1;
    }
    proof {
        assert(!exists|c: int| first_named(p0, k@, c));
    }
    let ghost kv = k@;
    let ghost before = props@;
    props.push((k, v));
    proof {
        assert(properties_view(props@) =~= p0.push((kv, v)));
    }
}

/// The object given for a trait reference or an unreadable header.
fn empty_object() -> (r: AmfObject)
    ensures
        r@ == empty_object_model(),
{
    let r = AmfObject::new(0, false, false, String::new(), Vec::new());
    proof {
        assert(r@.properties =~= seq![]);
        assert(r@.object_type =~= seq![]);
    }
    r
}

/// The model of a list of names.
pub open spec fn names_view(v: Seq<String>) -> Seq<Seq<char>> {
    v.map_values(|s: String| string_view(s))
}

impl View for AMFReader {
    type V = ReaderModel;

    closed spec fn view(&self) -> ReaderModel {
        ReaderModel {
            buffer: self.buffer@,
            head: self.read_head as nat,
            out: self.out@,
            encoding: self.encoding,
            layer: self.current_layer,
            objects: self.objects@.map_values(|o: ObjectInfo| info_view(o)),
            strings: self.strings@.map_values(|s: String| string_view(s)),
            is_error: self.is_error,
            error_object: match self.error_object {
                Some(o) => Some(o@),
                None => None,
            },
        }
    }
}

impl AMFReader {
    /// Starts a pass over `buffer`. A command stream's first byte selects the
    /// starting format: zero for AMF0, anything else for AMF3.
    pub fn new(buffer: &Vec<u8>, is_command: bool) -> (r: Self)
        ensures
            r@ == initial(buffer@, is_command),
            r@.wf(),
    {
        let selector = is_command && buffer.len() > 0;
        let reader = AMFReader {
            buffer: buffer.clone(),
            read_head: if selector { 1 } else { 0 },
            out: Vec::new(),
            encoding: if selector && buffer[0] != 0 { 3 } else { 0 },
            current_layer: 0,
            objects: Vec::new(),
            strings: Vec::new(),
            is_error: false,
            error_object: None,
        };
        proof {
            assert(reader@.objects =~= seq![]);
            assert(reader@.strings =~= seq![]);
        }
        reader
    }

    fn fail(&mut self)
        ensures
            final(self)@ == old(self)@.fail(),
    {
        self.is_error = true;
    }

    /// Reads the next byte without recording it.
    pub fn read_byte(&mut self) -> (r: Option<u8>)
        requires
            old(self)@.wf(),
        ensures
            final(self)@.wf(),
            old(self)@.remaining() == 0 ==> r is None && final(self)@ == old(self)@,
            old(self)@.remaining() > 0 ==> r == Some(old(self)@.buffer[old(self)@.head as int])
                && final(self)@ == (ReaderModel { head: old(self)@.head + 1, ..old(self)@ }),
    {
        if self.read_head < self.buffer.len() {
            let b = self.buffer[self.read_head];
            self.read_head = self.read_head + 1;
            Some(b)
        } else {
            None
        }
    }

    /// Reads the next `len` bytes without recording them; where fewer are
    /// left, reads nothing.
    pub fn read_bytes(&mut self, len: usize) -> (r: Option<Vec<u8>>)
        requires
            old(self)@.wf(),
        ensures
            final(self)@.wf(),
            old(self)@.remaining() < len ==> r is None && final(self)@ == old(self)@,
            old(self)@.remaining() >= len ==> r is Some && r.unwrap()@ == old(self)@.ahead(len as nat)
                && final(self)@ == (ReaderModel { head: (old(self)@.head + len) as nat, ..old(self)@ }),
    {
        if self.buffer.len() - self.read_head < len {
            return None;
        }
        let ghost s0 = self@;
        let mut bytes: Vec<u8> = Vec::new();
        let mut i: usize = 0;
        while i < len
            invariant
                s0 == old(self)@,
                s0.head + len <= s0.buffer.len(),
                i <= len,
                self.read_head == s0.head + i,
                self.buffer@.len() == s0.buffer.len(),
                self@ == (ReaderModel { head: (s0.head + i) as nat, ..s0 }),
                bytes@ =~= s0.ahead(i as nat),
            decreases len - i,
        {
            assert(self.read_head < self.buffer.len());
            bytes.push(self.buffer[self.read_head]);
            self.read_head = self.read_head + 1;
            i = i + 1;
        }
        Some(bytes)
    }

    /// Appends one byte to the annotation stream.
    pub fn push_byte(&mut self, syntax_byte: SyntaxByte)
        ensures
            final(self)@ == (ReaderModel { out: old(self)@.out.push(syntax_byte), ..old(self)@ }),
    {
        self.out.push(syntax_byte);
    }

    /// Reads up to `len + 1` bytes and records each with the owner and class
    /// of `syntax_byte`, giving them. Where fewer are left, reads and records
    /// those that are there, and the pass fails.
    pub fn push_bytes(&mut self, syntax_byte: SyntaxByte, len: usize) -> (r: Vec<u8>)
        requires
            old(self)@.wf(),
        ensures
            final(self)@.wf(),
            old(self)@.remaining() > len ==> r@ == old(self)@.ahead((len + 1) as nat)
                && final(self)@ == old(self)@.consume((len + 1) as nat, syntax_byte.object_id, syntax_byte.color),
            old(self)@.remaining() <= len ==> r@ == old(self)@.ahead(old(self)@.remaining())
                && final(self)@ == old(self)@.consume(old(self)@.remaining(), syntax_byte.object_id, syntax_byte.color).fail(),
    {
        let left = self.buffer.len() - self.read_head;
        if left <= len {
            let r = self.record_bytes(syntax_byte, left);
            self.fail();
            r
        } else {
            self.record_bytes(syntax_byte, len + 1)
        }
    }

    /// Reads the next `len` bytes and records each with the owner and class of
    /// `syntax_byte`. Where fewer are left, reads nothing and the pass fails.
    fn record_bytes(&mut self, syntax_byte: SyntaxByte, len: usize) -> (r: Vec<u8>)
        requires
            old(self)@.wf(),
        ensures
            final(self)@.wf(),
            old(self)@.remaining() >= len ==> r@ == old(self)@.ahead(len as nat)
                && final(self)@ == old(self)@.consume(len as nat, syntax_byte.object_id, syntax_byte.color),
            old(self)@.remaining() < len ==> r@.len() == 0 && final(self)@ == old(self)@.fail(),
    {
        if self.buffer.len() - self.read_head < len {
            self.fail();
            return Vec::new();
        }
        let ghost s0 = self@;
        let ghost owner = syntax_byte.object_id;
        let ghost color = syntax_byte.color;
        let mut bytes: Vec<u8> = Vec::new();
        let mut i: usize = 0;
        while i < len
            invariant
                s0 == old(self)@,
                s0.head + len <= s0.buffer.len(),
                i <= len,
                owner == syntax_byte.object_id,
                color == syntax_byte.color,
                self.read_head == s0.head + i,
                self.buffer@.len() == s0.buffer.len(),
                self@ == s0.consume(i as nat, owner, color),
                bytes@ == s0.ahead(i as nat),
            decreases len - i,
        {
            assert(self.read_head < self.buffer.len());
            let b = self.buffer[self.read_head];
            bytes.push(b);
            self.out.push(SyntaxByte { value: b, object_id: syntax_byte.object_id, color: syntax_byte.color });
            self.read_head = self.read_head + 1;
            i = i + 1;
            proof {
                assert(bytes@ =~= s0.ahead(i as nat));
                assert(self@.out =~= s0.consume(i as nat, owner, color).out);
            }
        }
        bytes
    }

    /// Reserves the next id with a placeholder entry.
    fn reserve(&mut self, kind: ObjectType) -> (r: isize)
        ensures
            r == old(self)@.next_id(),
            final(self)@ == old(self)@.reserve(kind@),
    {
        let id = self.objects.len() as isize;
        if self.objects.len() >= isize::MAX as usize {
            self.fail();
            return id;
        }
        let ghost s0 = self@;
        self.objects.push(ObjectInfo { object_id: id, object_type: kind, object_properties: TypeProperties::AmfNoProperties });
        proof {
            assert(self@.objects =~= s0.reserve(kind@).objects);
        }
        id
    }

    /// The id given by the caller, reserved where it is the next id, or a
    /// newly reserved one.
    fn take_id(&mut self, object_id: Option<isize>, kind: ObjectType) -> (r: isize)
        ensures
            (final(self)@, r) == old(self)@.take_id(object_id, kind@),
    {
        match object_id {
            Some(id) => {
                if id >= 0 && id as usize == self.objects.len() {
                    self.reserve(kind);
                }
                id
            },
            None => self.reserve(kind),
        }
    }

    /// Records the entry of the value with id `id`.
    fn put(&mut self, id: isize, kind: ObjectType, props: TypeProperties)
        ensures
            final(self)@ == old(self)@.put(id, kind@, props@),
    {
        let ghost s0 = self@;
        if id >= 0 && (id as usize) < self.objects.len() {
            self.objects.set(id as usize, ObjectInfo { object_id: id, object_type: kind, object_properties: props });
            proof {
                assert(self@.objects =~= s0.put(id, kind@, props@).objects);
            }
        }
    }

    /// Records the next byte with an owner and a class and gives it.
    fn take_byte(&mut self, owner: isize, color: SyntaxClass) -> (r: u8)
        requires
            old(self)@.wf(),
            old(self)@.remaining() > 0,
        ensures
            final(self)@ == old(self)@.consume(1, owner, color),
            r == old(self)@.buffer[old(self)@.head as int],
    {
        let b = self.buffer[self.read_head];
        self.record_bytes(SyntaxByte { value: b, object_id: owner, color }, 1);
        b
    }

    /// Reads a U29 and records its bytes; `None` where the input ends first.
    fn amf3_integer(&mut self, owner: isize, color: SyntaxClass) -> (r: Option<u32>)
        requires
            old(self)@.wf(),
        ensures
            final(self)@.wf(),
            read_u29(old(self)@, owner, color) == (final(self)@, match r {
                Some(v) => Some(v as int),
                None => None,
            }),
            r is Some ==> r.unwrap() < 0x2000_0000,
    {
        let ghost s0 = self@;
        proof {
            lemma_consume_zero(s0, owner, color);
        }
        if self.read_head >= self.buffer.len() {
            self.fail();
            return None;
        }
        let b0 = self.take_byte(owner, color);
        if b0 < 0x80 {
            return Some(b0 as u32);
        }
        if self.read_head >= self.buffer.len() {
            self.fail();
            return None;
        }
        let b1 = self.take_byte(owner, color);
        proof {
            lemma_consume_consume(s0, 1, 1, owner, color);
        }
        if b1 < 0x80 {
            return Some((b0 % 128) as u32 * 128 + b1 as u32);
        }
        if self.read_head >= self.buffer.len() {
            self.fail();
            return None;
        }
        let b2 = self.take_byte(owner, color);
        proof {
            lemma_consume_consume(s0, 2, 1, owner, color);
        }
        if b2 < 0x80 {
            return Some(((b0 % 128) as u32 * 128 + (b1 % 128) as u32) * 128 + b2 as u32);
        }
        if self.read_head >= self.buffer.len() {
            self.fail();
            return None;
        }
        let b3 = self.take_byte(owner, color);
        proof {
            lemma_consume_consume(s0, 3, 1, owner, color);
        }
        Some((((b0 % 128) as u32 * 128 + (b1 % 128) as u32) * 128 + (b2 % 128) as u32) * 256 + b3 as u32)
    }

    /// Reads the eight bytes of a double into the entry `id` and gives
    /// their bit pattern.
    fn read_number_bits(&mut self, id: isize) -> (r: Option<u64>)
        requires
            old(self)@.wf(),
        ensures
            final(self)@.wf(),
            read_number(old(self)@, id) == (final(self)@, r),
    {
        let b = self.record_bytes(SyntaxByte { value: 0, object_id: id, color: SyntaxClass::Amf0Number }, 8);
        if b.len() < 8 {
            return None;
        }
        let v = (b[0] as u64) * 0x100_0000_0000_0000 + (b[1] as u64) * 0x1_0000_0000_0000
            + (b[2] as u64) * 0x100_0000_0000 + (b[3] as u64) * 0x1_0000_0000 + (b[4] as u64)
            * 0x100_0000 + (b[5] as u64) * 0x1_0000 + (b[6] as u64) * 0x100 + (b[7] as u64);
        Some(v)
    }

    fn read_amf0_bool(&mut self, id: isize)
        requires
            old(self)@.wf(),
        ensures
            final(self)@.wf(),
            final(self)@ == read_amf0_bool(old(self)@, id),
    {
        if self.read_head >= self.buffer.len() {
            self.fail();
            return;
        }
        let b = self.buffer[self.read_head];
        let color = if b == 0 { SyntaxClass::Amf0BoolFalse } else { SyntaxClass::Amf0BoolTrue };
        self.take_byte(id, color);
        self.put(id, ObjectType::Amf0Bool(b != 0), TypeProperties::AmfNoProperties);
    }

    fn read_amf0_utf_length(&mut self, color: SyntaxClass, object_id: isize) -> (r: Option<u16>)
        requires
            old(self)@.wf(),
        ensures
            final(self)@.wf(),
            read_amf0_utf_length(old(self)@, color, object_id) == (final(self)@, match r {
                Some(v) => Some(v as nat),
                None => None,
            }),
    {
        let b = self.record_bytes(SyntaxByte { value: 0, object_id, color }, 2);
        if b.len() < 2 {
            return None;
        }
        Some((b[0] as u16) * 256 + b[1] as u16)
    }

    /// The next `n` bytes, left unread.
    fn peek_bytes(&self, n: usize) -> (r: Vec<u8>)
        requires
            self@.wf(),
            self@.remaining() >= n,
        ensures
            r@ == self@.ahead(n as nat),
    {
        let mut bytes: Vec<u8> = Vec::new();
        let mut i: usize = 0;
        while i < n
            invariant
                self@.wf(),
                self@.remaining() >= n,
                self.read_head + n <= self.buffer.len(),
                i <= n,
                bytes@ =~= self@.ahead(i as nat),
            decreases n - i,
        {
            bytes.push(self.buffer[self.read_head + i]);
            i = i + 1;
        }
        bytes
    }

    fn enter_layer(&mut self)
        ensures
            final(self)@ == old(self)@.with_layer(deeper(old(self)@.layer)),
    {
        if self.current_layer < u64::MAX {
            self.current_layer = self.current_layer + 1;
        }
    }

    /// Reads an AMF0 string (a two-byte length, then UTF-8) into the entry
    /// `object_id`, or a new entry where none is given.
    fn read_amf0_utf8(&mut self, color: SyntaxClass, object_id: Option<isize>) -> (r: String)
        requires
            old(self)@.wf(),
            object_id is Some ==> 0 <= object_id.unwrap() <= old(self)@.objects.len(),
        ensures
            final(self)@.extends(old(self)@),
            read_amf0_utf8(old(self)@, color, object_id) == (final(self)@, r@),
    {
        let id = self.take_id(object_id, ObjectType::Amf0Undefined);
        let n = match self.read_amf0_utf_length(color, id) {
            Some(n) => n as usize,
            None => return String::new(),
        };
        if self.buffer.len() - self.read_head < n {
            self.fail();
            return String::new();
        }
        let bytes = self.peek_bytes(n);
        match utf8_to_string(&bytes) {
            None => {
                self.fail();
                String::new()
            },
            Some(t) => {
                self.record_bytes(SyntaxByte { value: 0, object_id: id, color }, n);
                self.put(id, ObjectType::Amf0String(t.clone()), TypeProperties::Amf0StringProperties);
                t
            },
        }
    }

    /// Reads the members of an AMF0 object, once its depth has been entered,
    /// up to and including the end marker.
    fn read_amf0_members(&mut self, id: isize)
        requires
            old(self)@.wf(),
        ensures
            final(self)@.extends(old(self)@),
            final(self)@ == amf0_members(old(self)@, id),
        decreases old(self)@.remaining(), 1nat,
    {
        let ghost s0 = self@;
        loop
            invariant
                self@.extends(s0),
                s0 == old(self)@,
                amf0_members(self@, id) == amf0_members(s0, id),
            decreases self@.remaining(),
        {
            if self.is_error {
                return;
            }
            let ghost s_it = self@;
            let key = self.read_amf0_utf8(SyntaxClass::Amf0ObjectKey(self.current_layer), None);
            if self.is_error {
                return;
            }
            if key.as_str().is_empty() {
                if self.read_head >= self.buffer.len() {
                    self.fail();
                    return;
                }
                let b = self.take_byte(id, SyntaxClass::Amf0ObjectMarker);
                if b == 0x09 {
                    if self.current_layer != 0 {
                        self.current_layer = self.current_layer - 1;
                    }
                    return;
                }
            }
            assert(self@.remaining() < s_it.remaining());
            self.read_amf0();
        }
    }

    /// Reads the body of an AMF0 object into the entry `id`.
    fn read_amf0_object(&mut self, id: isize)
        requires
            old(self)@.wf(),
        ensures
            final(self)@.extends(old(self)@),
            final(self)@ == amf0_object(old(self)@, id),
        decreases old(self)@.remaining(), 3nat,
    {
        self.put(id, ObjectType::Amf0Object, TypeProperties::Amf0ObjectProperties);
        self.enter_layer();
        self.read_amf0_members(id);
    }

    /// Reads the body of an AMF0 typed object into the entry `id`.
    fn read_amf0_typed_object(&mut self, id: isize)
        requires
            old(self)@.wf(),
        ensures
            final(self)@.extends(old(self)@),
            final(self)@ == amf0_typed_object(old(self)@, id),
        decreases old(self)@.remaining(), 3nat,
    {
        self.put(id, ObjectType::Amf0TypedObject, TypeProperties::Amf0TypedObjectProperties);
        self.enter_layer();
        self.read_amf0_utf8(SyntaxClass::Amf0TypedObjectName(self.current_layer), None);
        if !self.is_error {
            self.enter_layer();
            self.read_amf0_members(id);
        }
    }

    /// Reads one AMF0 value and gives its id, or -1 where the input had
    /// already ended or failed.
    pub fn read_amf0(&mut self) -> (r: isize)
        requires
            old(self)@.wf(),
        ensures
            final(self)@.extends(old(self)@),
            amf0_value(old(self)@) == (final(self)@, r),
            !old(self)@.is_error && old(self)@.remaining() > 0 ==> final(self)@.remaining() < old(self)@.remaining(),
        decreases old(self)@.remaining(), 2nat,
    {
        if self.is_error {
            return ERROR_ID;
        }
        if self.read_head >= self.buffer.len() {
            self.fail();
            return ERROR_ID;
        }
        let b = self.buffer[self.read_head];
        let id = self.objects.len() as isize;
        self.take_byte(id, amf0_class_of(b));
        self.reserve(ObjectType::Amf0Undefined);
        match b {
            0x00 => {
                if let Some(v) = self.read_number_bits(id) {
                    self.put(id, ObjectType::Amf0Number(v), TypeProperties::AmfNoProperties);
                }
            },
            0x01 => {
                self.read_amf0_bool(id);
            },
            0x02 => {
                self.read_amf0_utf8(SyntaxClass::Amf0String, Some(id));
            },
            0x03 => {
                self.read_amf0_object(id);
            },
            0x05 => {
                self.put(id, ObjectType::Amf0Null, TypeProperties::AmfNoProperties);
            },
            0x06 => {
                self.put(id, ObjectType::Amf0Undefined, TypeProperties::AmfNoProperties);
            },
            0x10 => {
                self.read_amf0_typed_object(id);
            },
            0x11 => {
                self.encoding = 3;
                self.put(id, ObjectType::Amf0Switch, TypeProperties::AmfNoProperties);
            },
            _ => {
                self.put(id, ObjectType::Amf0Undefined, TypeProperties::AmfNoProperties);
            },
        }
        id
    }

    /// The id given, or the id the next value will receive.
    fn owner_of(&self, object_id: Option<isize>) -> (r: isize)
        ensures
            r == match object_id {
                Some(id) => id,
                None => self@.next_id(),
            },
    {
        match object_id {
            Some(id) => id,
            None => self.objects.len() as isize,
        }
    }

    /// Reads an AMF3 integer into the entry `object_id`, or a new entry where
    /// none is given, and gives its signed value (-1 where the input ends).
    pub fn read_amf3_integer(&mut self, object_id: Option<isize>) -> (r: i32)
        requires
            old(self)@.wf(),
            object_id is Some ==> 0 <= object_id.unwrap() <= old(self)@.objects.len(),
        ensures
            final(self)@.extends(old(self)@),
            read_amf3_integer(old(self)@, object_id) == (final(self)@, r),
            ({
                let id = match object_id {
                    Some(id) => id,
                    None => old(self)@.next_id(),
                };
                !final(self)@.is_error ==> 0 <= id < final(self)@.objects.len() && final(self)@.objects[id as int] == (InfoModel {
                    id,
                    kind: TypeModel::Amf3Integer(r),
                    props: PropertiesModel::AmfNoProperties,
                })
            }),
    {
        let id = self.take_id(object_id, ObjectType::Amf3Undefined);
        match self.amf3_integer(id, SyntaxClass::Amf3Integer) {
            None => -1,
            Some(v) => {
                let i: i32 = if v >= 0x1000_0000 { (v as i32) - 0x2000_0000 } else { v as i32 };
                self.put(id, ObjectType::Amf3Integer(i), TypeProperties::AmfNoProperties);
                i
            },
        }
    }

    /// Reads the U29 that starts an AMF3 string, array or object, recording
    /// its bytes for `object_id` (or the id the next value will receive); -1
    /// where the input ends first.
    pub fn read_amf3_string_length(&mut self, object_id: Option<isize>) -> (r: i32)
        requires
            old(self)@.wf(),
        ensures
            ({
                let owner = match object_id {
                    Some(id) => id,
                    None => old(self)@.next_id(),
                };
                let (s, v) = read_u29(old(self)@, owner, SyntaxClass::Amf3Integer);
                &&& final(self)@ == s
                &&& r == match v {
                    Some(v) => v,
                    None => -1,
                }
            }),
            final(self)@.extends(old(self)@),
    {
        let owner = self.owner_of(object_id);
        match self.amf3_integer(owner, SyntaxClass::Amf3Integer) {
            None => -1,
            Some(v) => v as i32,
        }
    }

    fn read_payload(&mut self, n: usize, owner: isize) -> (r: Option<String>)
        requires
            old(self)@.wf(),
        ensures
            final(self)@.extends(old(self)@),
            read_amf3_payload(old(self)@, n as int, owner) == (final(self)@, match r {
                Some(t) => Some(t@),
                None => None,
            }),
    {
        if self.buffer.len() - self.read_head < n {
            self.fail();
            return None;
        }
        let bytes = self.record_bytes(SyntaxByte { value: 0, object_id: owner, color: SyntaxClass::Amf3String }, n);
        match utf8_to_string(&bytes) {
            Some(t) => Some(t),
            None => Some(byte_list_string(&bytes)),
        }
    }

    /// Reads `length` bytes of an AMF3 string payload for `object_id` (or the
    /// id the next value will receive). Where fewer are left, or `length` is
    /// negative, reads nothing, fails the pass and gives the empty string.
    pub fn read_amf3_utf8(&mut self, length: i32, object_id: Option<isize>) -> (r: String)
        requires
            old(self)@.wf(),
        ensures
            final(self)@.extends(old(self)@),
            ({
                let owner = match object_id {
                    Some(id) => id,
                    None => old(self)@.next_id(),
                };
                let (s, t) = read_amf3_payload(old(self)@, length as int, owner);
                &&& final(self)@ == s
                &&& r@ == match t {
                    Some(t) => t,
                    None => Seq::<char>::empty(),
                }
            }),
    {
        let owner = self.owner_of(object_id);
        if length < 0 {
            self.fail();
            return String::new();
        }
        match self.read_payload(length as usize, owner) {
            Some(t) => t,
            None => String::new(),
        }
    }

    /// Reads an AMF3 string, inline or by reference to the string table, into
    /// the entry `object_id`, or a new entry where none is given.
    pub fn read_amf3_string(&mut self, object_id: Option<isize>) -> (r: String)
        requires
            old(self)@.wf(),
            object_id is Some ==> 0 <= object_id.unwrap() <= old(self)@.objects.len(),
        ensures
            final(self)@.extends(old(self)@),
            read_amf3_string(old(self)@, object_id) == (final(self)@, r@),
            ({
                let id = match object_id {
                    Some(id) => id,
                    None => old(self)@.next_id(),
                };
                !final(self)@.is_error ==> 0 <= id < final(self)@.objects.len()
                    && final(self)@.objects[id as int].id == id
                    && final(self)@.objects[id as int].kind == TypeModel::Amf3String(r@)
            }),
            !old(self)@.is_error ==> final(self)@.is_error || final(self)@.remaining() < old(self)@.remaining(),
    {
        let id = self.take_id(object_id, ObjectType::Amf3Undefined);
        let r = match self.amf3_integer(id, SyntaxClass::Amf3Integer) {
            Some(r) => r,
            None => return String::new(),
        };
        let n = r / 2;
        if r % 2 == 1 {
            if n == 0 {
                self.put(
                    id,
                    ObjectType::Amf3String(String::new()),
                    TypeProperties::Amf3StringProperties(GenericProperties::new(false, 0)),
                );
                return String::new();
            }
            let t = match self.read_payload(n as usize, id) {
                Some(t) => t,
                None => return String::new(),
            };
            let ghost s3 = self@;
            self.strings.push(t.clone());
            proof {
                assert(self@.strings =~= s3.strings.push(t@));
            }
            self.put(
                id,
                ObjectType::Amf3String(t.clone()),
                TypeProperties::Amf3StringProperties(GenericProperties::new(false, n as i32)),
            );
            t
        } else {
            let t = if (n as usize) < self.strings.len() {
                self.strings[n as usize].clone()
            } else {
                "String Not Found".to_owned()
            };
            self.put(
                id,
                ObjectType::Amf3String(t.clone()),
                TypeProperties::Amf3StringProperties(GenericProperties::new(true, n as i32)),
            );
            t
        }
    }

    /// Reads an AMF3 array into the entry `object_id`, or a new entry where
    /// none is given, and gives the ids of its elements.
    #[verifier::rlimit(50)]
    pub fn read_amf3_array(&mut self, object_id: Option<isize>) -> (r: Vec<isize>)
        requires
            old(self)@.wf(),
            object_id is Some ==> 0 <= object_id.unwrap() <= old(self)@.objects.len(),
        ensures
            final(self)@.extends(old(self)@),
            read_amf3_array(old(self)@, object_id) == (final(self)@, r@),
            ({
                let id = match object_id {
                    Some(id) => id,
                    None => old(self)@.next_id(),
                };
                !final(self)@.is_error ==> 0 <= id < final(self)@.objects.len()
                    && final(self)@.objects[id as int].id == id
                    && final(self)@.objects[id as int].kind == TypeModel::Amf3Array(r@)
                    && forall|j: int| 0 <= j < r@.len() ==> #[trigger] r@[j] > id
            }),
        decreases old(self)@.remaining(), 3nat,
    {
        let ghost s0 = self@;
        let id = self.take_id(object_id, ObjectType::Amf3Undefined);
        let r = match self.amf3_integer(id, SyntaxClass::Amf3Integer) {
            Some(r) => r,
            None => return Vec::new(),
        };
        let n = r / 2;
        let ghost s2 = self@;
        let mut items: Vec<isize> = Vec::new();
        let mut i: u32 = 0;
        while i < n && !self.is_error
            invariant
                s0 == old(self)@,
                s2.extends(s0),
                self@.extends(s2),
                i <= n,
                n < 0x1000_0000,
                !s2.is_error ==> 0 <= id < s2.objects.len(),
                forall|j: int| 0 <= j < items@.len() && !self@.is_error ==> #[trigger] items@[j] > id,
                array_items(self@, (n - i) as int, items@) == array_items(s2, n as int, seq![]),
            decreases n - i,
        {
            let c = self.read_amf3();
            items.push(c);
            i = i + 1;
        }
        self.put(
            id,
            ObjectType::Amf3Array(copy_ids(&items)),
            TypeProperties::Amf3ArrayProperties(GenericProperties::new(false, n as i32)),
        );
        items
    }

    /// Reads `n` property names of an AMF3 trait, stopping at an error.
    fn read_trait_keys(&mut self, n: u32) -> (r: Vec<String>)
        requires
            old(self)@.wf(),
        ensures
            final(self)@.extends(old(self)@),
            trait_keys(old(self)@, n as nat, seq![]) == (final(self)@, names_view(r@)),
    {
        let ghost s0 = self@;
        let mut keys: Vec<String> = Vec::new();
        let mut i: u32 = 0;
        proof {
            assert(names_view(keys@) =~= seq![]);
        }
        loop
            invariant
                s0 == old(self)@,
                self@.extends(s0),
                i <= n,
                trait_keys(self@, (n - i) as nat, names_view(keys@)) == trait_keys(s0, n as nat, seq![]),
            decreases n - i,
        {
            if i >= n || self.is_error {
                return keys;
            }
            let k = self.read_amf3_string(None);
            if self.is_error {
                return keys;
            }
            let ghost kv = k@;
            let ghost before = names_view(keys@);
            keys.push(k);
            proof {
                assert(names_view(keys@) =~= before.push(kv));
            }
            i = i + 1;
        }
    }

    /// Reads one value for each declared property name, stopping at an error.
    fn read_sealed_values(&mut self, keys: &Vec<String>) -> (r: Vec<(String, Option<isize>)>)
        requires
            old(self)@.wf(),
        ensures
            final(self)@.extends(old(self)@),
            sealed_values(old(self)@, names_view(keys@), 0, seq![]) == (final(self)@, properties_view(r@)),
        decreases old(self)@.remaining(), 1nat,
    {
        let ghost s0 = self@;
        let ghost kv = names_view(keys@);
        let mut props: Vec<(String, Option<isize>)> = Vec::new();
        let mut i: usize = 0;
        proof {
            assert(properties_view(props@) =~= seq![]);
        }
        loop
            invariant
                s0 == old(self)@,
                kv == names_view(keys@),
                self@.extends(s0),
                i <= keys@.len(),
                sealed_values(self@, kv, i as int, properties_view(props@)) == sealed_values(s0, kv, 0, seq![]),
            decreases keys@.len() - i,
        {
            if i >= keys.len() || self.is_error {
                return props;
            }
            let v = self.read_amf3();
            map_property(&mut props, keys[i].clone(), Some(v));
            i = i + 1;
            if self.is_error {
                return props;
            }
        }
    }

    /// Reads name and value pairs of a dynamic object until a raw `0x01`
    /// byte, the end of the input, or an error.
    fn read_dynamic_members(&mut self, id: isize, acc: Vec<(String, Option<isize>)>) -> (r: Vec<(String, Option<isize>)>)
        requires
            old(self)@.wf(),
        ensures
            final(self)@.extends(old(self)@),
            dynamic_members(old(self)@, id, properties_view(acc@)) == (final(self)@, properties_view(r@)),
        decreases old(self)@.remaining(), 1nat,
    {
        let ghost s0 = self@;
        let ghost p0 = properties_view(acc@);
        let mut props = acc;
        loop
            invariant
                s0 == old(self)@,
                p0 == properties_view(acc@),
                self@.extends(s0),
                dynamic_members(self@, id, properties_view(props@)) == dynamic_members(s0, id, p0),
            decreases self@.remaining(),
        {
            if self.is_error || self.read_head >= self.buffer.len() {
                return props;
            }
            if self.buffer[self.read_head] == 0x01 {
                self.take_byte(id, SyntaxClass::Amf3Object);
                return props;
            }
            let k = self.read_amf3_string(None);
            if self.is_error {
                return props;
            }
            let v = self.read_amf3();
            map_property(&mut props, k, Some(v));
        }
    }

    /// Reads an AMF3 object into the entry `object_id`, or a new entry where
    /// none is given.
    fn read_amf3_object(&mut self, object_id: Option<isize>) -> (r: AmfObject)
        requires
            old(self)@.wf(),
            object_id is Some ==> 0 <= object_id.unwrap() <= old(self)@.objects.len(),
        ensures
            final(self)@.extends(old(self)@),
            read_amf3_object(old(self)@, object_id) == (final(self)@, r@),
        decreases old(self)@.remaining(), 4nat,
    {
        let id = self.take_id(object_id, ObjectType::Amf3Undefined);
        let r = match self.amf3_integer(id, SyntaxClass::Amf3Integer) {
            Some(r) => r,
            None => return empty_object(),
        };
        let h = r / 2;
        if h % 2 == 0 {
            let props = ObjectProperties::new(true, 0, 0, false, false, String::new());
            let empty: Vec<(String, Option<isize>)> = Vec::new();
            proof {
                assert(properties_view(empty@) =~= seq![]);
            }
            let kind = ObjectType::Amf3Object(empty);
            proof {
                assert(props@ == bare_object(true));
                assert(kind@ == TypeModel::Amf3Object(seq![]));
            }
            self.put(id, kind, TypeProperties::Amf3ObjectProperties(props));
            return empty_object();
        }
        self.read_inline_object(id, h / 2)
    }

    /// Reads the rest of an AMF3 object with an inline trait. The object given
    /// back counts the declared property names read.
    #[verifier::rlimit(40)]
    fn read_inline_object(&mut self, id: isize, t: u32) -> (r: AmfObject)
        requires
            old(self)@.wf(),
        ensures
            final(self)@.extends(old(self)@),
            inline_object(old(self)@, id, t as int) == (final(self)@, r@),
        decreases old(self)@.remaining(), 3nat,
    {
        let encoding = t % 4;
        let externalisable = encoding % 2 == 1;
        let dynamic = (t / 2) % 2 == 1;
        let class_name = self.read_amf3_string(None);
        let keys = self.read_trait_keys(t / 4);
        let props = self.read_object_members(id, &keys, externalisable, dynamic);
        self.put(
            id,
            ObjectType::Amf3Object(copy_properties(&props)),
            TypeProperties::Amf3ObjectProperties(
                ObjectProperties::new(false, keys.len(), encoding as usize, externalisable, dynamic, class_name.clone()),
            ),
        );
        let mut object = AmfObject::new(encoding as i32, externalisable, dynamic, class_name, props);
        object.property_count = keys.len();
        object
    }

    /// Reads the values of an AMF3 object once its trait has been read.
    fn read_object_members(&mut self, id: isize, keys: &Vec<String>, externalisable: bool, dynamic: bool) -> (r: Vec<(String, Option<isize>)>)
        requires
            old(self)@.wf(),
        ensures
            final(self)@.extends(old(self)@),
            object_members(old(self)@, id, names_view(keys@), externalisable, dynamic) == (final(self)@, properties_view(r@)),
        decreases old(self)@.remaining(), 2nat,
    {
        if externalisable {
            self.unread_properties(keys)
        } else {
            let p = self.read_sealed_values(keys);
            if dynamic {
                self.read_dynamic_members(id, p)
            } else {
                p
            }
        }
    }

    /// The declared names of an externalisable object, each without a value.
    fn unread_properties(&self, keys: &Vec<String>) -> (r: Vec<(String, Option<isize>)>)
        ensures
            properties_view(r@) == unread_names(names_view(keys@), keys@.len()),
    {
        let ghost kv = names_view(keys@);
        let mut r: Vec<(String, Option<isize>)> = Vec::new();
        let mut i: usize = 0;
        proof {
            assert(properties_view(r@) =~= seq![]);
        }
        while i < keys.len()
            invariant
                kv == names_view(keys@),
                i <= keys@.len(),
                properties_view(r@) == unread_names(kv, i as nat),
            decreases keys@.len() - i,
        {
            map_property(&mut r, keys[i].clone(), None);
            i = i + 1;
        }
        r
    }

    /// Reads one AMF3 value and gives its id, or -1 where the input had
    /// already ended or failed.
    pub fn read_amf3(&mut self) -> (r: isize)
        requires
            old(self)@.wf(),
        ensures
            final(self)@.extends(old(self)@),
            amf3_value(old(self)@) == (final(self)@, r),
            !final(self)@.is_error ==> 0 <= r && r as int == old(self)@.objects.len(),
            !old(self)@.is_error && old(self)@.remaining() > 0 ==> final(self)@.remaining() < old(self)@.remaining(),
        decreases old(self)@.remaining(), 0nat,
    {
        if self.is_error {
            return ERROR_ID;
        }
        if self.read_head >= self.buffer.len() {
            self.fail();
            return ERROR_ID;
        }
        let b = self.buffer[self.read_head];
        let id = self.objects.len() as isize;
        self.take_byte(id, amf3_class_of(b));
        self.reserve(ObjectType::Amf3Undefined);
        match b {
            0x01 => {
                self.put(id, ObjectType::Amf3Null, TypeProperties::AmfNoProperties);
            },
            0x02 => {
                self.put(id, ObjectType::Amf3False, TypeProperties::AmfNoProperties);
            },
            0x03 => {
                self.put(id, ObjectType::Amf3True, TypeProperties::AmfNoProperties);
            },
            0x04 => {
                self.read_amf3_integer(Some(id));
            },
            0x05 => {
                if let Some(v) = self.read_number_bits(id) {
                    self.put(id, ObjectType::Amf3Double(v), TypeProperties::AmfNoProperties);
                }
            },
            0x06 => {
                self.read_amf3_string(Some(id));
            },
            0x08 => {
                self.read_amf3_array(Some(id));
            },
            0x0A => {
                self.read_amf3_object(Some(id));
            },
            _ => {
                self.put(id, ObjectType::Amf3Undefined, TypeProperties::AmfNoProperties);
            },
        }
        id
    }

    /// Decodes the rest of the buffer. After an error every remaining byte is
    /// recorded as an error byte owned by -1, and the graph gets an
    /// undefined entry with that id.
    pub fn highlight(&mut self)
        requires
            old(self)@.wf(),
        ensures
            final(self)@ == highlight(old(self)@),
    {
        let ghost s0 = self@;
        while self.read_head < self.buffer.len()
            invariant
                self@.wf(),
                highlight_loop(self@) == highlight_loop(s0),
            decreases self@.remaining(),
        {
            if self.is_error {
                self.take_byte(ERROR_ID, SyntaxClass::Error);
            } else if self.encoding == 0 {
                self.read_amf0();
            } else {
                self.read_amf3();
            }
        }
        if self.is_error {
            self.error_object = Some(
                ObjectInfo {
                    object_id: ERROR_ID,
                    object_type: ObjectType::Amf0Undefined,
                    object_properties: TypeProperties::AmfNoProperties,
                },
            );
        }
    }

    /// Decodes a whole buffer in one pass.
    pub fn decode(buffer: &Vec<u8>, is_command: bool) -> (r: Self)
        ensures
            r@ == decode(buffer@, is_command),
    {
        let mut reader = AMFReader::new(buffer, is_command);
        reader.highlight();
        reader
    }

    /// The annotation stream: one entry for each byte read so far.
    pub fn out(&self) -> (r: &Vec<SyntaxByte>)
        ensures
            r@ == self@.out,
    {
        &self.out
    }

    /// Number of entries in the value graph, the error entry aside.
    pub fn object_count(&self) -> (r: usize)
        ensures
            r == self@.objects.len(),
    {
        self.objects.len()
    }

    /// The entry of the value graph with id `id`: -1 names the entry that
    /// stands for the bytes after an error.
    pub fn get_object(&self, id: isize) -> (r: Option<&ObjectInfo>)
        ensures
            id == ERROR_ID ==> match r {
                Some(o) => self@.error_object == Some(o@),
                None => self@.error_object is None,
            },
            id != ERROR_ID ==> match r {
                Some(o) => 0 <= id < self@.objects.len() && o@ == self@.objects[id as int],
                None => !(0 <= id < self@.objects.len()),
            },
    {
        if id == ERROR_ID {
            match &self.error_object {
                Some(o) => Some(o),
                None => None,
            }
        } else if id >= 0 && (id as usize) < self.objects.len() {
            Some(&self.objects[id as usize])
        } else {
            None
        }
    }

    /// The AMF3 string table: the inline strings that are not empty, in the
    /// order read.
    pub fn strings(&self) -> (r: &Vec<String>)
        ensures
            names_view(r@) == self@.strings,
    {
        &self.strings
    }

    /// Whether the pass has met the end of the input in the middle of a value.
    pub fn is_error(&self) -> (r: bool)
        ensures
            r == self@.is_error,
    {
        self.is_error
    }

    /// 0 while values are read as AMF0, 3 once they are read as AMF3.
    pub fn encoding(&self) -> (r: u8)
        ensures
            r == self@.encoding,
    {
        self.encoding
    }

    /// The current nesting depth of AMF0 objects.
    pub fn current_layer(&self) -> (r: u64)
        ensures
            r == self@.layer,
    {
        self.current_layer
    }

    /// The position of the next byte to read.
    pub fn read_head(&self) -> (r: usize)
        ensures
            r == self@.head,
    {
        self.read_head
    }
}

} // verus!
