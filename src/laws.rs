//! Properties of a whole decode pass.
use vstd::prelude::*;

use crate::model::{
    amf0_marker_class, amf0_members, amf0_object, amf0_typed_object, amf0_value,
    amf3_marker_class, amf3_value, array_items, be_u64, decode, deeper, dynamic_members,
    error_info, highlight_loop, initial, inline_object, lemma_consume_consume,
    lemma_consume_keeps_stream, lemma_consume_zero, object_members, read_amf0_bool,
    read_amf0_utf8, read_amf3_array, read_amf3_integer, read_amf3_object, read_amf3_payload,
    read_amf3_string, read_number, read_u29, sealed_values, stream_ok, tagged, trait_keys,
    ReaderModel, ERROR_ID, shallower, first_named, set_property, unread_names,
};
use crate::object_properties::PropertiesModel;
use crate::object_type::TypeModel;
use crate::syntax_byte::SyntaxClass;

verus! {

broadcast use lemma_consume_keeps_stream;

/// `b` is a later state of the same pass as `a`: same input, the position
/// has not gone back, and the annotation stream is still in step.
pub open spec fn advances(a: ReaderModel, b: ReaderModel) -> bool {
    &&& b.buffer == a.buffer
    &&& b.head >= a.head
    &&& b.wf()
    &&& b.head - b.out.len() == a.head - a.out.len()
    &&& stream_ok(a) ==> stream_ok(b)
}

/// `b` is a later state of an AMF3 read that started at `a`, in the same
/// format.
pub open spec fn amf3_frame(a: ReaderModel, b: ReaderModel) -> bool {
    &&& advances(a, b)
    &&& b.encoding == a.encoding
}

proof fn lemma_read_u29_frame(s: ReaderModel, owner: isize, color: SyntaxClass)
    requires
        s.wf(),
    ensures
        amf3_frame(s, read_u29(s, owner, color).0),
{
}

proof fn lemma_read_number_frame(s: ReaderModel, id: isize)
    requires
        s.wf(),
    ensures
        amf3_frame(s, read_number(s, id).0),
{
}

proof fn lemma_read_amf3_integer_frame(s: ReaderModel, object_id: Option<isize>)
    requires
        s.wf(),
    ensures
        amf3_frame(s, read_amf3_integer(s, object_id).0),
{
    let (s1, id) = s.take_id(object_id, TypeModel::Amf3Undefined);
    lemma_read_u29_frame(s1, id, SyntaxClass::Amf3Integer);
}

proof fn lemma_read_amf3_string_frame(s: ReaderModel, object_id: Option<isize>)
    requires
        s.wf(),
    ensures
        amf3_frame(s, read_amf3_string(s, object_id).0),
        !s.is_error ==> read_amf3_string(s, object_id).0.is_error || read_amf3_string(s, object_id).0.remaining() < s.remaining(),
{
    let (s1, id) = s.take_id(object_id, TypeModel::Amf3Undefined);
    lemma_read_u29_frame(s1, id, SyntaxClass::Amf3Integer);
    let (s2, r) = read_u29(s1, id, SyntaxClass::Amf3Integer);
    if r is Some {
        let n = r.unwrap() / 2;
        assert(amf3_frame(s2, read_amf3_payload(s2, n, id).0));
    }
}

proof fn lemma_trait_keys_frame(s: ReaderModel, n: nat, acc: Seq<Seq<char>>)
    requires
        s.wf(),
    ensures
        amf3_frame(s, trait_keys(s, n, acc).0),
    decreases n,
{
    if n != 0 && !s.is_error {
        lemma_read_amf3_string_frame(s, None);
        let (s1, k) = read_amf3_string(s, None);
        if !s1.is_error {
            lemma_trait_keys_frame(s1, (n - 1) as nat, acc.push(k));
        }
    }
}

proof fn lemma_array_items_frame(s: ReaderModel, n: int, acc: Seq<isize>)
    requires
        s.wf(),
    ensures
        amf3_frame(s, array_items(s, n, acc).0),
    decreases s.remaining(), 1nat, n,
{
    if n > 0 && !s.is_error {
        lemma_amf3_value_frame(s);
        let (s1, c) = amf3_value(s);
        if !(s1.is_error || s1.remaining() >= s.remaining()) {
            lemma_array_items_frame(s1, n - 1, acc.push(c));
        }
    }
}

proof fn lemma_read_array_frame(s: ReaderModel, object_id: Option<isize>)
    requires
        s.wf(),
    ensures
        amf3_frame(s, read_amf3_array(s, object_id).0),
    decreases s.remaining(), 3nat,
{
    let (s1, id) = s.take_id(object_id, TypeModel::Amf3Undefined);
    lemma_read_u29_frame(s1, id, SyntaxClass::Amf3Integer);
    let (s2, r) = read_u29(s1, id, SyntaxClass::Amf3Integer);
    if r is Some && s2.remaining() <= s.remaining() {
        lemma_array_items_frame(s2, r.unwrap() / 2, seq![]);
    }
}

proof fn lemma_sealed_values_frame(
    s: ReaderModel,
    keys: Seq<Seq<char>>,
    i: int,
    acc: Seq<(Seq<char>, Option<isize>)>,
)
    requires
        s.wf(),
    ensures
        amf3_frame(s, sealed_values(s, keys, i, acc).0),
    decreases s.remaining(), 1nat, keys.len() - i,
{
    if !(i >= keys.len() || i < 0 || s.is_error) {
        lemma_amf3_value_frame(s);
        let (s1, v) = amf3_value(s);
        if !(s1.is_error || s1.remaining() >= s.remaining()) {
            lemma_sealed_values_frame(s1, keys, i + 1, set_property(acc, keys[i], Some(v)));
        }
    }
}

proof fn lemma_dynamic_members_frame(s: ReaderModel, id: isize, acc: Seq<(Seq<char>, Option<isize>)>)
    requires
        s.wf(),
    ensures
        amf3_frame(s, dynamic_members(s, id, acc).0),
    decreases s.remaining(), 1nat,
{
    if !(s.is_error || s.remaining() == 0) && s.buffer[s.head as int] != 0x01 {
        lemma_read_amf3_string_frame(s, None);
        let (s1, k) = read_amf3_string(s, None);
        if !(s1.is_error || s1.remaining() >= s.remaining()) {
            lemma_amf3_value_frame(s1);
            let (s2, v) = amf3_value(s1);
            if s2.remaining() <= s1.remaining() {
                lemma_dynamic_members_frame(s2, id, set_property(acc, k, Some(v)));
            }
        }
    }
}

proof fn lemma_object_members_frame(
    s: ReaderModel,
    id: isize,
    keys: Seq<Seq<char>>,
    externalisable: bool,
    dynamic: bool,
)
    requires
        s.wf(),
    ensures
        amf3_frame(s, object_members(s, id, keys, externalisable, dynamic).0),
    decreases s.remaining(), 2nat,
{
    if !externalisable {
        lemma_sealed_values_frame(s, keys, 0, seq![]);
        let (s1, p) = sealed_values(s, keys, 0, seq![]);
        if dynamic && s1.remaining() <= s.remaining() {
            lemma_dynamic_members_frame(s1, id, p);
        }
    }
}

proof fn lemma_inline_object_frame(s: ReaderModel, id: isize, t: int)
    requires
        s.wf(),
    ensures
        amf3_frame(s, inline_object(s, id, t).0),
    decreases s.remaining(), 3nat,
{
    lemma_read_amf3_string_frame(s, None);
    let (s3, class_name) = read_amf3_string(s, None);
    lemma_trait_keys_frame(s3, (t / 4) as nat, seq![]);
    let (s4, keys) = trait_keys(s3, (t / 4) as nat, seq![]);
    if s4.remaining() <= s.remaining() {
        lemma_object_members_frame(s4, id, keys, (t % 4) % 2 == 1, (t / 2) % 2 == 1);
    }
}

proof fn lemma_read_object_frame(s: ReaderModel, object_id: Option<isize>)
    requires
        s.wf(),
    ensures
        amf3_frame(s, read_amf3_object(s, object_id).0),
    decreases s.remaining(), 4nat,
{
    let (s1, id) = s.take_id(object_id, TypeModel::Amf3Undefined);
    lemma_read_u29_frame(s1, id, SyntaxClass::Amf3Integer);
    let (s2, r) = read_u29(s1, id, SyntaxClass::Amf3Integer);
    if r is Some && (r.unwrap() / 2) % 2 != 0 && s2.remaining() <= s.remaining() {
        lemma_inline_object_frame(s2, id, r.unwrap() / 2 / 2);
    }
}

/// Reading an AMF3 value keeps the input and the format, and reads at least
/// one byte unless the pass had failed or the input had ended.
#[verifier::rlimit(50)]
pub proof fn lemma_amf3_value_frame(s: ReaderModel)
    requires
        s.wf(),
    ensures
        amf3_frame(s, amf3_value(s).0),
        !s.is_error && s.remaining() > 0 ==> amf3_value(s).0.remaining() < s.remaining(),
    decreases s.remaining(), 0nat,
{
    if !s.is_error && s.remaining() > 0 {
        let b = s.buffer[s.head as int];
        let id = s.next_id();
        let s1 = s.consume(1, id, amf3_marker_class(b)).reserve(TypeModel::Amf3Undefined);
        if b == 0x04 {
            lemma_read_amf3_integer_frame(s1, Some(id));
        } else if b == 0x05 {
            lemma_read_number_frame(s1, id);
        } else if b == 0x06 {
            lemma_read_amf3_string_frame(s1, Some(id));
        } else if b == 0x08 && s1.remaining() < s.remaining() {
            lemma_read_array_frame(s1, Some(id));
        } else if b == 0x0A && s1.remaining() < s.remaining() {
            lemma_read_object_frame(s1, Some(id));
        }
    }
}


proof fn lemma_read_amf0_utf8_frame(s: ReaderModel, color: SyntaxClass, object_id: Option<isize>)
    requires
        s.wf(),
    ensures
        advances(s, read_amf0_utf8(s, color, object_id).0),
{
}

proof fn lemma_amf0_members_frame(s: ReaderModel, id: isize)
    requires
        s.wf(),
    ensures
        advances(s, amf0_members(s, id)),
    decreases s.remaining(), 1nat,
{
    if !s.is_error {
        lemma_read_amf0_utf8_frame(s, SyntaxClass::Amf0ObjectKey(s.layer), None);
        let (s1, key) = read_amf0_utf8(s, SyntaxClass::Amf0ObjectKey(s.layer), None);
        if !s1.is_error && !(key.len() == 0 && s1.remaining() == 0) && !(key.len() == 0 && s1.buffer[s1.head as int] == 0x09) {
            let s2 = if key.len() == 0 { s1.consume(1, id, SyntaxClass::Amf0ObjectMarker) } else { s1 };
            if s2.remaining() < s.remaining() {
                lemma_amf0_value_frame(s2);
                let s3 = amf0_value(s2).0;
                if s3.remaining() <= s2.remaining() {
                    lemma_amf0_members_frame(s3, id);
                }
            }
        }
    }
}

proof fn lemma_amf0_object_frame(s: ReaderModel, id: isize)
    requires
        s.wf(),
    ensures
        advances(s, amf0_object(s, id)),
    decreases s.remaining(), 3nat,
{
    let s1 = s.put(id, TypeModel::Amf0Object, PropertiesModel::Amf0ObjectProperties);
    lemma_amf0_members_frame(s1.with_layer(deeper(s1.layer)), id);
}

proof fn lemma_amf0_typed_object_frame(s: ReaderModel, id: isize)
    requires
        s.wf(),
    ensures
        advances(s, amf0_typed_object(s, id)),
    decreases s.remaining(), 3nat,
{
    let s1 = s.put(id, TypeModel::Amf0TypedObject, PropertiesModel::Amf0TypedObjectProperties);
    let s2 = s1.with_layer(deeper(s1.layer));
    lemma_read_amf0_utf8_frame(s2, SyntaxClass::Amf0TypedObjectName(s2.layer), None);
    let s3 = read_amf0_utf8(s2, SyntaxClass::Amf0TypedObjectName(s2.layer), None).0;
    if !(s3.is_error || s3.remaining() > s.remaining()) {
        lemma_amf0_members_frame(s3.with_layer(deeper(s3.layer)), id);
    }
}

/// Reading an AMF0 value keeps the input, and reads at least one byte unless
/// the pass had failed or the input had ended.
#[verifier::rlimit(50)]
pub proof fn lemma_amf0_value_frame(s: ReaderModel)
    requires
        s.wf(),
    ensures
        advances(s, amf0_value(s).0),
        !s.is_error && s.remaining() > 0 ==> amf0_value(s).0.remaining() < s.remaining(),
    decreases s.remaining(), 2nat,
{
    if !s.is_error && s.remaining() > 0 {
        let b = s.buffer[s.head as int];
        let id = s.next_id();
        let s1 = s.consume(1, id, amf0_marker_class(b)).reserve(TypeModel::Amf0Undefined);
        let s2 = amf0_value(s).0;
        assert(advances(s, s1) && s1.remaining() < s.remaining());
        if b == 0x00 {
            lemma_read_number_frame(s1, id);
            assert(advances(s1, s2));
        } else if b == 0x01 {
            assert(s2 == read_amf0_bool(s1, id));
            assert(advances(s1, s2));
        } else if b == 0x02 {
            lemma_read_amf0_utf8_frame(s1, SyntaxClass::Amf0String, Some(id));
            assert(advances(s1, s2));
        } else if b == 0x03 {
            lemma_amf0_object_frame(s1, id);
            assert(s2 == amf0_object(s1, id));
        } else if b == 0x10 {
            lemma_amf0_typed_object_frame(s1, id);
            assert(s2 == amf0_typed_object(s1, id));
        } else {
            assert(advances(s1, s2));
        }
    }
}

/// The top-level loop reads the whole input, keeping the annotation stream in
/// step with it.
pub proof fn lemma_highlight_loop_frame(s: ReaderModel)
    requires
        s.wf(),
    ensures
        advances(s, highlight_loop(s)),
        highlight_loop(s).remaining() == 0,
    decreases s.remaining(),
{
    if s.remaining() > 0 {
        if s.is_error {
            lemma_highlight_loop_frame(s.consume(1, ERROR_ID, SyntaxClass::Error));
        } else if s.encoding == 0 {
            lemma_amf0_value_frame(s);
            lemma_highlight_loop_frame(amf0_value(s).0);
        } else {
            lemma_amf3_value_frame(s);
            lemma_highlight_loop_frame(amf3_value(s).0);
        }
    }
}

/// The annotation stream of a pass holds one entry for each byte of the input
/// after the selector byte of a command stream, in input order, each with the
/// byte it stands for.
pub proof fn lemma_stream_is_input(b: Seq<u8>, is_command: bool)
    ensures
        decode(b, is_command).out.len() == b.len() - initial(b, is_command).head,
        forall|k: int|
            0 <= k < decode(b, is_command).out.len() ==> #[trigger] decode(b, is_command).out[k].value
                == b[initial(b, is_command).head + k],
{
    let s0 = initial(b, is_command);
    assert(stream_ok(s0));
    lemma_highlight_loop_frame(s0);
    let d = decode(b, is_command);
    assert(stream_ok(d));
}

/// Once an AMF0 pass reads the top-level marker `0x11`, the pass goes on from
/// the state after it, with the format set to AMF3.
pub proof fn lemma_encoding_switch(s: ReaderModel)
    requires
        s.wf(),
        !s.is_error,
        s.encoding == 0,
        s.remaining() > 0,
        s.buffer[s.head as int] == 0x11,
        s.objects.len() < isize::MAX,
    ensures
        amf0_value(s).0.encoding == 3,
        !amf0_value(s).0.is_error,
        amf0_value(s).1 as int == s.objects.len(),
        amf0_value(s).0.objects[s.objects.len() as int].kind == TypeModel::Amf0Switch,
        amf0_value(s).0.head == s.head + 1,
        amf0_value(s).0.out == s.out.push(
            crate::syntax_byte::SyntaxByte { value: 0x11, object_id: amf0_value(s).1, color: SyntaxClass::Amf0SwitchMarker },
        ),
        highlight_loop(s) == highlight_loop(amf0_value(s).0),
{
}

/// While the format is AMF3, each top-level value is read by the AMF3 rules,
/// and the format stays AMF3 for the value after it.
pub proof fn lemma_amf3_mode_lasts(s: ReaderModel)
    requires
        s.wf(),
        !s.is_error,
        s.encoding == 3,
        s.remaining() > 0,
    ensures
        highlight_loop(s) == highlight_loop(amf3_value(s).0),
        amf3_value(s).0.encoding == 3,
{
    lemma_amf3_value_frame(s);
}

/// After an error, the pass records every remaining byte as an error byte
/// owned by `ERROR_ID`.
pub proof fn lemma_drain(s: ReaderModel)
    requires
        s.wf(),
        s.is_error,
    ensures
        highlight_loop(s) == s.consume(s.remaining(), ERROR_ID, SyntaxClass::Error),
    decreases s.remaining(),
{
    if s.remaining() == 0 {
        lemma_consume_zero(s, ERROR_ID, SyntaxClass::Error);
    } else {
        let s1 = s.consume(1, ERROR_ID, SyntaxClass::Error);
        lemma_drain(s1);
        lemma_consume_consume(s, 1, (s.remaining() - 1) as nat, ERROR_ID, SyntaxClass::Error);
    }
}

/// In any state, an AMF0 number marker followed by eight bytes gives a new
/// entry holding the double whose big-endian bit pattern is those bytes; the
/// nine bytes are read and recorded with that entry's id.
pub proof fn lemma_amf0_number_value(s: ReaderModel)
    requires
        s.wf(),
        !s.is_error,
        s.remaining() >= 9,
        s.buffer[s.head as int] == 0x00,
        s.objects.len() < isize::MAX,
    ensures
        amf0_value(s).1 == s.next_id(),
        amf0_value(s).1 as int == s.objects.len(),
        amf0_value(s).0.objects.len() == s.objects.len() + 1,
        amf0_value(s).0.objects[s.objects.len() as int].kind == TypeModel::Amf0Number(be_u64(s.ahead(9).subrange(1, 9)) as u64),
        amf0_value(s).0.head == s.head + 9,
        amf0_value(s).0.out.len() == s.out.len() + 9,
        forall|k: int| s.out.len() <= k < s.out.len() + 9 ==> #[trigger] amf0_value(s).0.out[k].object_id == amf0_value(s).1,
        !amf0_value(s).0.is_error,
{
    let id = s.next_id();
    let s1 = s.consume(1, id, amf0_marker_class(0x00)).reserve(TypeModel::Amf0Undefined);
    assert(s1.ahead(8) =~= s.ahead(9).subrange(1, 9));
}

/// In any state, an AMF0 string whose two-byte length is present but larger
/// than what follows fails the pass: the length is read and recorded, the
/// payload is left for the error drain, and the string read is empty.
pub proof fn lemma_amf0_string_short(s: ReaderModel, color: SyntaxClass, object_id: Option<isize>)
    requires
        s.wf(),
        s.remaining() >= 2,
        s.remaining() - 2 < s.ahead(2)[0] * 256 + s.ahead(2)[1],
    ensures
        read_amf0_utf8(s, color, object_id).0.is_error,
        read_amf0_utf8(s, color, object_id).1.len() == 0,
        read_amf0_utf8(s, color, object_id).0.head == s.head + 2,
        read_amf0_utf8(s, color, object_id).0.out.len() == s.out.len() + 2,
{
    let (s1, id) = s.take_id(object_id, TypeModel::Amf0Undefined);
    assert(s1.ahead(2) == s.ahead(2));
}

/// The member reads of an object after its key depth has been entered: one
/// member whose key is not empty and whose value reads without error.
proof fn lemma_members_step(s3: ReaderModel, id: isize)
    requires
        s3.wf(),
        !s3.is_error,
        !read_amf0_utf8(s3, SyntaxClass::Amf0ObjectKey(s3.layer), None).0.is_error,
        read_amf0_utf8(s3, SyntaxClass::Amf0ObjectKey(s3.layer), None).1.len() > 0,
    ensures
        amf0_members(s3, id) == amf0_members(amf0_value(read_amf0_utf8(s3, SyntaxClass::Amf0ObjectKey(s3.layer), None).0).0, id),
        read_amf0_utf8(s3, SyntaxClass::Amf0ObjectKey(s3.layer), None).0.layer == s3.layer,
{
    let s4 = read_amf0_utf8(s3, SyntaxClass::Amf0ObjectKey(s3.layer), None).0;
    lemma_read_amf0_utf8_frame(s3, SyntaxClass::Amf0ObjectKey(s3.layer), None);
    lemma_amf0_value_frame(s4);
    assert(s4.remaining() < s3.remaining());
}

/// An empty key then `0x09` ends an object's members, one level shallower.
proof fn lemma_members_end(s5: ReaderModel, id: isize)
    requires
        s5.wf(),
        !s5.is_error,
        s5.objects.len() < isize::MAX,
        s5.remaining() >= 3,
        s5.buffer[s5.head as int] == 0x00,
        s5.buffer[s5.head + 1int] == 0x00,
        s5.buffer[s5.head + 2int] == 0x09,
    ensures
        !amf0_members(s5, id).is_error,
        amf0_members(s5, id).layer == shallower(s5.layer),
{
    let (s6, key) = read_amf0_utf8(s5, SyntaxClass::Amf0ObjectKey(s5.layer), None);
    let (s1, kid) = s5.take_id(None, TypeModel::Amf0Undefined);
    assert(s1.ahead(2)[0] == 0 && s1.ahead(2)[1] == 0);
    assert(s6.ahead(0) =~= seq![]);
    assert(!s6.is_error && key.len() == 0);
    assert(s6.buffer[s6.head as int] == 0x09);
}

/// An AMF0 object with one member: after the marker, a key that is not empty,
/// a value that reads without error and leaves the depth as it found it, then
/// an empty key and the end marker `0x09`. Reading it gives the next id, no
/// error, and the nesting depth it started with.
pub proof fn lemma_amf0_object_one_member(s: ReaderModel)
    requires
        s.wf(),
        !s.is_error,
        s.remaining() > 0,
        s.buffer[s.head as int] == 0x03,
        s.layer < u64::MAX,
        ({
            let s1 = s.consume(1, s.next_id(), SyntaxClass::Amf0ObjectMarker).reserve(TypeModel::Amf0Undefined);
            let s2 = s1.put(s.next_id(), TypeModel::Amf0Object, PropertiesModel::Amf0ObjectProperties);
            let s3 = s2.with_layer(deeper(s2.layer));
            let (s4, key) = read_amf0_utf8(s3, SyntaxClass::Amf0ObjectKey(s3.layer), None);
            let s5 = amf0_value(s4).0;
            &&& !s4.is_error
            &&& key.len() > 0
            &&& !s5.is_error
            &&& s5.layer == s4.layer
            &&& s5.objects.len() < isize::MAX
            &&& s5.remaining() >= 3
            &&& s5.buffer[s5.head as int] == 0x00
            &&& s5.buffer[s5.head + 1int] == 0x00
            &&& s5.buffer[s5.head + 2int] == 0x09
        }),
    ensures
        amf0_value(s).1 == s.next_id(),
        !amf0_value(s).0.is_error,
        amf0_value(s).0.layer == s.layer,
{
    let id = s.next_id();
    let s1 = s.consume(1, id, SyntaxClass::Amf0ObjectMarker).reserve(TypeModel::Amf0Undefined);
    let s2 = s1.put(id, TypeModel::Amf0Object, PropertiesModel::Amf0ObjectProperties);
    let s3 = s2.with_layer(deeper(s2.layer));
    let s4 = read_amf0_utf8(s3, SyntaxClass::Amf0ObjectKey(s3.layer), None).0;
    let s5 = amf0_value(s4).0;
    lemma_amf0_value_frame(s4);
    assert(s1.remaining() < s.remaining());
    assert(amf0_value(s).0 == amf0_object(s1, id));
    assert(amf0_object(s1, id) == amf0_members(s3, id));
    lemma_members_step(s3, id);
    lemma_members_end(s5, id);
}

/// A top-level AMF0 number decodes to the double whose big-endian bit pattern
/// is the eight bytes after the marker, and its nine bytes share one owner.
pub proof fn lemma_amf0_number(b: Seq<u8>)
    requires
        b.len() == 9,
        b[0] == 0x00,
    ensures
        decode(b, false).objects.len() == 1,
        decode(b, false).objects[0].kind == TypeModel::Amf0Number(be_u64(b.subrange(1, 9)) as u64),
        decode(b, false).out.len() == 9,
        forall|i: int| 0 <= i < 9 ==> #[trigger] decode(b, false).out[i].object_id == 0 && decode(b, false).out[i].value == b[i],
        !decode(b, false).is_error,
{
    let s0 = initial(b, false);
    let s1 = amf0_value(s0).0;
    assert(s1.remaining() == 0);
    assert(highlight_loop(s0) == highlight_loop(s1));
    assert(highlight_loop(s1) == s1);
    let d = decode(b, false);
    assert(d == s1);
    assert(s1.out =~= tagged(b.subrange(0, 1), 0, SyntaxClass::Amf0NumberMarker) + tagged(b.subrange(1, 9), 0, SyntaxClass::Amf0Number));
}

/// A top-level AMF0 string that declares five bytes but has fewer after its
/// length fails the pass: its remaining bytes are recorded as error bytes
/// owned by `ERROR_ID`, and the graph gets the error entry.
pub proof fn lemma_truncated_string(p: Seq<u8>)
    requires
        p.len() < 5,
    ensures
        decode(seq![0x02u8, 0x00u8, 0x05u8] + p, false).is_error,
        decode(seq![0x02u8, 0x00u8, 0x05u8] + p, false).error_object == Some(error_info()),
        decode(seq![0x02u8, 0x00u8, 0x05u8] + p, false).out.len() == 3 + p.len(),
        decode(seq![0x02u8, 0x00u8, 0x05u8] + p, false).out.subrange(3, 3 + p.len() as int) == tagged(p, ERROR_ID, SyntaxClass::Error),
{
    let b = seq![0x02u8, 0x00u8, 0x05u8] + p;
    let s0 = initial(b, false);
    let s1 = amf0_value(s0).0;
    assert(b[0] == 0x02 && b[1] == 0x00 && b[2] == 0x05);
    assert(s1.head == 3 && s1.is_error && s1.out.len() == 3);
    lemma_drain(s1);
    let d = decode(b, false);
    assert(s1.ahead(s1.remaining()) =~= p);
    assert(d.out.subrange(3, 3 + p.len() as int) =~= tagged(p, ERROR_ID, SyntaxClass::Error));
}

/// Decoding is a function of the input: two passes over equal buffers with
/// the same command flag give equal value graphs and annotation streams.
pub proof fn lemma_decode_deterministic(b1: Seq<u8>, b2: Seq<u8>, is_command: bool)
    requires
        b1 == b2,
    ensures
        decode(b1, is_command).objects == decode(b2, is_command).objects,
        decode(b1, is_command).out == decode(b2, is_command).out,
        decode(b1, is_command).error_object == decode(b2, is_command).error_object,
{
}


/// `c` names an entry of a graph of `n` entries, or is `ERROR_ID` in a pass
/// that has failed.
pub open spec fn id_ok(c: isize, n: nat, failed: bool) -> bool {
    (0 <= c < n) || (c == ERROR_ID && failed)
}

/// Every id of `items` is `id_ok`.
pub open spec fn ids_ok(items: Seq<isize>, n: nat, failed: bool) -> bool {
    forall|j: int| 0 <= j < items.len() ==> id_ok(#[trigger] items[j], n, failed)
}

/// Every value id of the properties `p` is `id_ok`.
pub open spec fn props_ok(p: Seq<(Seq<char>, Option<isize>)>, n: nat, failed: bool) -> bool {
    forall|j: int| 0 <= j < p.len() && (#[trigger] p[j]).1 is Some ==> id_ok(p[j].1.unwrap(), n, failed)
}

/// Every child id that a value of kind `k` holds is `id_ok`.
pub open spec fn refs_ok(k: TypeModel, n: nat, failed: bool) -> bool {
    match k {
        TypeModel::Amf3Array(items) => ids_ok(items, n, failed),
        TypeModel::Amf3Object(p) => props_ok(p, n, failed),
        _ => true,
    }
}

/// Every child id held in the graph of `s` is `id_ok`.
pub open spec fn graph_closed(s: ReaderModel) -> bool {
    forall|i: int| 0 <= i < s.objects.len() ==> #[trigger] refs_ok(s.objects[i].kind, s.objects.len(), s.is_error)
}

/// The graph of `s` has room for another id in `isize`.
pub open spec fn ids_fit(s: ReaderModel) -> bool {
    s.objects.len() < isize::MAX
}

/// From `a` to `b` the graph only grows, a failure stays, and a closed graph
/// stays closed.
pub open spec fn grows(a: ReaderModel, b: ReaderModel) -> bool {
    &&& b.objects.len() >= a.objects.len()
    &&& a.is_error ==> b.is_error
    &&& graph_closed(a) && ids_fit(b) ==> graph_closed(b)
}

proof fn lemma_ids_ok_mono(items: Seq<isize>, n: nat, failed: bool, n2: nat, failed2: bool)
    requires
        ids_ok(items, n, failed),
        n <= n2,
        failed ==> failed2,
    ensures
        ids_ok(items, n2, failed2),
{
    assert forall|j: int| 0 <= j < items.len() implies id_ok(#[trigger] items[j], n2, failed2) by {
        assert(id_ok(items[j], n, failed));
    }
}

proof fn lemma_props_ok_mono(p: Seq<(Seq<char>, Option<isize>)>, n: nat, failed: bool, n2: nat, failed2: bool)
    requires
        props_ok(p, n, failed),
        n <= n2,
        failed ==> failed2,
    ensures
        props_ok(p, n2, failed2),
{
    assert forall|j: int| 0 <= j < p.len() && (#[trigger] p[j]).1 is Some implies id_ok(p[j].1.unwrap(), n2, failed2) by {
        assert(id_ok(p[j].1.unwrap(), n, failed));
    }
}

proof fn lemma_refs_ok_mono(k: TypeModel, n: nat, failed: bool, n2: nat, failed2: bool)
    requires
        refs_ok(k, n, failed),
        n <= n2,
        failed ==> failed2,
    ensures
        refs_ok(k, n2, failed2),
{
    match k {
        TypeModel::Amf3Array(items) => lemma_ids_ok_mono(items, n, failed, n2, failed2),
        TypeModel::Amf3Object(p) => lemma_props_ok_mono(p, n, failed, n2, failed2),
        _ => {},
    }
}

/// A closed graph stays closed as it grows or fails.
proof fn lemma_closed_mono(s: ReaderModel, t: ReaderModel)
    requires
        graph_closed(s),
        t.objects.len() >= s.objects.len(),
        forall|i: int| 0 <= i < s.objects.len() ==> t.objects[i] == s.objects[i],
        forall|i: int| s.objects.len() <= i < t.objects.len() ==> refs_ok(#[trigger] t.objects[i].kind, t.objects.len(), t.is_error),
        s.is_error ==> t.is_error,
    ensures
        graph_closed(t),
{
    assert forall|i: int| 0 <= i < t.objects.len() implies #[trigger] refs_ok(t.objects[i].kind, t.objects.len(), t.is_error) by {
        if i < s.objects.len() {
            assert(refs_ok(s.objects[i].kind, s.objects.len(), s.is_error));
            lemma_refs_ok_mono(s.objects[i].kind, s.objects.len(), s.is_error, t.objects.len(), t.is_error);
        }
    }
}

proof fn lemma_closed_put(s: ReaderModel, id: isize, kind: TypeModel, props: PropertiesModel)
    requires
        graph_closed(s),
        refs_ok(kind, s.objects.len(), s.is_error),
    ensures
        graph_closed(s.put(id, kind, props)),
{
}

proof fn lemma_closed_reserve(s: ReaderModel, kind: TypeModel)
    requires
        graph_closed(s),
        refs_ok(kind, s.objects.len() + 1, s.is_error),
    ensures
        graph_closed(s.reserve(kind)),
{
    if s.objects.len() < isize::MAX {
        lemma_closed_mono(s, s.reserve(kind));
    } else {
        lemma_closed_fail(s);
    }
}

proof fn lemma_closed_take_id(s: ReaderModel, object_id: Option<isize>, kind: TypeModel)
    requires
        graph_closed(s),
        refs_ok(kind, s.objects.len() + 1, s.is_error),
    ensures
        graph_closed(s.take_id(object_id, kind).0),
{
    lemma_closed_reserve(s, kind);
}

proof fn lemma_closed_fail(s: ReaderModel)
    requires
        graph_closed(s),
    ensures
        graph_closed(s.fail()),
{
    lemma_closed_mono(s, s.fail());
}

proof fn lemma_read_u29_grows(s: ReaderModel, owner: isize, color: SyntaxClass)
    ensures
        grows(s, read_u29(s, owner, color).0),
{
    if graph_closed(s) {
        lemma_closed_fail(s.consume(s.remaining(), owner, color));
    }
}

proof fn lemma_read_number_grows(s: ReaderModel, id: isize)
    ensures
        grows(s, read_number(s, id).0),
{
    if graph_closed(s) {
        lemma_closed_fail(s);
    }
}

proof fn lemma_read_amf3_string_grows(s: ReaderModel, object_id: Option<isize>)
    ensures
        grows(s, read_amf3_string(s, object_id).0),
{
    let (s1, id) = s.take_id(object_id, TypeModel::Amf3Undefined);
    if graph_closed(s) {
        lemma_closed_take_id(s, object_id, TypeModel::Amf3Undefined);
    }
    lemma_read_u29_grows(s1, id, SyntaxClass::Amf3Integer);
    let (s2, r) = read_u29(s1, id, SyntaxClass::Amf3Integer);
    if r is Some && graph_closed(s2) {
        lemma_closed_fail(s2);
    }
}

proof fn lemma_read_amf3_integer_grows(s: ReaderModel, object_id: Option<isize>)
    ensures
        grows(s, read_amf3_integer(s, object_id).0),
{
    let (s1, id) = s.take_id(object_id, TypeModel::Amf3Undefined);
    if graph_closed(s) {
        lemma_closed_take_id(s, object_id, TypeModel::Amf3Undefined);
    }
    lemma_read_u29_grows(s1, id, SyntaxClass::Amf3Integer);
}

proof fn lemma_trait_keys_grows(s: ReaderModel, n: nat, acc: Seq<Seq<char>>)
    ensures
        grows(s, trait_keys(s, n, acc).0),
    decreases n,
{
    if n != 0 && !s.is_error {
        lemma_read_amf3_string_grows(s, None);
        let (s1, k) = read_amf3_string(s, None);
        if !s1.is_error {
            lemma_trait_keys_grows(s1, (n - 1) as nat, acc.push(k));
        }
    }
}

proof fn lemma_array_items_grows(s: ReaderModel, n: int, acc: Seq<isize>)
    requires
        ids_fit(s) ==> ids_ok(acc, s.objects.len(), s.is_error),
    ensures
        grows(s, array_items(s, n, acc).0),
        ids_fit(array_items(s, n, acc).0) ==> ids_ok(array_items(s, n, acc).1, array_items(s, n, acc).0.objects.len(), array_items(s, n, acc).0.is_error),
    decreases s.remaining(), 1nat, n,
{
    if n > 0 && !s.is_error {
        lemma_amf3_value_grows(s);
        let (s1, c) = amf3_value(s);
        let acc1 = acc.push(c);
        if ids_fit(s1) {
            lemma_ids_ok_mono(acc, s.objects.len(), s.is_error, s1.objects.len(), s1.is_error);
            assert(ids_ok(acc1, s1.objects.len(), s1.is_error)) by {
                assert forall|j: int| 0 <= j < acc1.len() implies id_ok(#[trigger] acc1[j], s1.objects.len(), s1.is_error) by {
                    if j < acc.len() {
                        assert(acc1[j] == acc[j]);
                    }
                }
            }
        }
        if !(s1.is_error || s1.remaining() >= s.remaining()) {
            lemma_array_items_grows(s1, n - 1, acc1);
        }
    }
}

proof fn lemma_read_array_grows(s: ReaderModel, object_id: Option<isize>)
    ensures
        grows(s, read_amf3_array(s, object_id).0),
    decreases s.remaining(), 3nat,
{
    let (s1, id) = s.take_id(object_id, TypeModel::Amf3Undefined);
    if graph_closed(s) {
        lemma_closed_take_id(s, object_id, TypeModel::Amf3Undefined);
    }
    lemma_read_u29_grows(s1, id, SyntaxClass::Amf3Integer);
    let (s2, r) = read_u29(s1, id, SyntaxClass::Amf3Integer);
    if r is Some && s2.remaining() <= s.remaining() {
        let n = r.unwrap() / 2;
        lemma_array_items_grows(s2, n, seq![]);
        let (s3, items) = array_items(s2, n, seq![]);
        if graph_closed(s2) && ids_fit(s3) {
            lemma_closed_put(s3, id, TypeModel::Amf3Array(items), PropertiesModel::Amf3ArrayProperties(
                crate::object_properties::GenericProperties { is_reference: false, identifier: n as i32 },
            ));
        }
    }
}

/// Maps one name in a list whose ids are `id_ok` in `s`, giving a list whose
/// ids are `id_ok` in the later state `t`.
proof fn lemma_props_push(
    acc: Seq<(Seq<char>, Option<isize>)>,
    s: ReaderModel,
    t: ReaderModel,
    k: Seq<char>,
    v: isize,
)
    requires
        props_ok(acc, s.objects.len(), s.is_error),
        t.objects.len() >= s.objects.len(),
        s.is_error ==> t.is_error,
        id_ok(v, t.objects.len(), t.is_error),
    ensures
        props_ok(set_property(acc, k, Some(v)), t.objects.len(), t.is_error),
{
    lemma_props_ok_mono(acc, s.objects.len(), s.is_error, t.objects.len(), t.is_error);
    lemma_props_set(acc, k, Some(v), t.objects.len(), t.is_error);
}

/// Mapping a name to a value that is `id_ok`, or to none, keeps a list's ids
/// `id_ok`.
proof fn lemma_props_set(p: Seq<(Seq<char>, Option<isize>)>, k: Seq<char>, v: Option<isize>, n: nat, failed: bool)
    requires
        props_ok(p, n, failed),
        v is Some ==> id_ok(v.unwrap(), n, failed),
    ensures
        props_ok(set_property(p, k, v), n, failed),
{
    let q = set_property(p, k, v);
    if exists|t: int| first_named(p, k, t) {
        let c = choose|t: int| first_named(p, k, t);
        assert forall|j: int| 0 <= j < q.len() && (#[trigger] q[j]).1 is Some implies id_ok(q[j].1.unwrap(), n, failed) by {
            if j != c {
                assert(q[j] == p[j]);
            }
        }
    } else {
        assert forall|j: int| 0 <= j < q.len() && (#[trigger] q[j]).1 is Some implies id_ok(q[j].1.unwrap(), n, failed) by {
            if j < p.len() {
                assert(q[j] == p[j]);
            }
        }
    }
}

proof fn lemma_unread_names_ok(keys: Seq<Seq<char>>, m: nat, n: nat, failed: bool)
    ensures
        props_ok(unread_names(keys, m), n, failed),
    decreases m,
{
    if m != 0 && m <= keys.len() {
        lemma_unread_names_ok(keys, (m - 1) as nat, n, failed);
        lemma_props_set(unread_names(keys, (m - 1) as nat), keys[m - 1], None, n, failed);
    }
}

proof fn lemma_sealed_values_grows(
    s: ReaderModel,
    keys: Seq<Seq<char>>,
    i: int,
    acc: Seq<(Seq<char>, Option<isize>)>,
)
    requires
        ids_fit(s) ==> props_ok(acc, s.objects.len(), s.is_error),
    ensures
        grows(s, sealed_values(s, keys, i, acc).0),
        ids_fit(sealed_values(s, keys, i, acc).0) ==> props_ok(sealed_values(s, keys, i, acc).1, sealed_values(s, keys, i, acc).0.objects.len(), sealed_values(s, keys, i, acc).0.is_error),
    decreases s.remaining(), 1nat, keys.len() - i,
{
    if !(i >= keys.len() || i < 0 || s.is_error) {
        lemma_amf3_value_grows(s);
        let (s1, v) = amf3_value(s);
        if ids_fit(s1) {
            lemma_props_push(acc, s, s1, keys[i], v);
        }
        if !(s1.is_error || s1.remaining() >= s.remaining()) {
            lemma_sealed_values_grows(s1, keys, i + 1, set_property(acc, keys[i], Some(v)));
        }
    }
}

proof fn lemma_dynamic_members_grows(s: ReaderModel, id: isize, acc: Seq<(Seq<char>, Option<isize>)>)
    requires
        ids_fit(s) ==> props_ok(acc, s.objects.len(), s.is_error),
    ensures
        grows(s, dynamic_members(s, id, acc).0),
        ids_fit(dynamic_members(s, id, acc).0) ==> props_ok(dynamic_members(s, id, acc).1, dynamic_members(s, id, acc).0.objects.len(), dynamic_members(s, id, acc).0.is_error),
    decreases s.remaining(), 1nat,
{
    if !(s.is_error || s.remaining() == 0) && s.buffer[s.head as int] != 0x01 {
        lemma_read_amf3_string_grows(s, None);
        let (s1, k) = read_amf3_string(s, None);
        if ids_fit(s1) {
            lemma_props_ok_mono(acc, s.objects.len(), s.is_error, s1.objects.len(), s1.is_error);
        }
        if !(s1.is_error || s1.remaining() >= s.remaining()) {
            lemma_amf3_value_grows(s1);
            let (s2, v) = amf3_value(s1);
            if ids_fit(s2) {
                lemma_props_push(acc, s1, s2, k, v);
            }
            if s2.remaining() <= s1.remaining() {
                lemma_dynamic_members_grows(s2, id, set_property(acc, k, Some(v)));
            }
        }
    }
}

proof fn lemma_object_members_grows(
    s: ReaderModel,
    id: isize,
    keys: Seq<Seq<char>>,
    externalisable: bool,
    dynamic: bool,
)
    ensures
        grows(s, object_members(s, id, keys, externalisable, dynamic).0),
        ids_fit(object_members(s, id, keys, externalisable, dynamic).0) ==> props_ok(
            object_members(s, id, keys, externalisable, dynamic).1,
            object_members(s, id, keys, externalisable, dynamic).0.objects.len(),
            object_members(s, id, keys, externalisable, dynamic).0.is_error,
        ),
    decreases s.remaining(), 2nat,
{
    if externalisable {
        lemma_unread_names_ok(keys, keys.len(), s.objects.len(), s.is_error);
    } else {
        lemma_sealed_values_grows(s, keys, 0, seq![]);
        let (s1, p) = sealed_values(s, keys, 0, seq![]);
        if dynamic && s1.remaining() <= s.remaining() {
            lemma_dynamic_members_grows(s1, id, p);
        }
    }
}

#[verifier::rlimit(50)]
proof fn lemma_inline_object_grows(s: ReaderModel, id: isize, t: int)
    ensures
        grows(s, inline_object(s, id, t).0),
    decreases s.remaining(), 3nat,
{
    lemma_read_amf3_string_grows(s, None);
    let (s3, class_name) = read_amf3_string(s, None);
    lemma_trait_keys_grows(s3, (t / 4) as nat, seq![]);
    let (s4, keys) = trait_keys(s3, (t / 4) as nat, seq![]);
    let externalisable = (t % 4) % 2 == 1;
    let dynamic = (t / 2) % 2 == 1;
    let (s5, props) = if s4.remaining() > s.remaining() {
        (s4, seq![])
    } else {
        object_members(s4, id, keys, externalisable, dynamic)
    };
    if s4.remaining() <= s.remaining() {
        lemma_object_members_grows(s4, id, keys, externalisable, dynamic);
    }
    if graph_closed(s) && ids_fit(s5) {
        let info = crate::object_properties::ObjectPropertiesModel {
            is_reference: false,
            property_count: keys.len() as usize,
            encoding: (t % 4) as usize,
            externalisable,
            dynamic,
            object_type: class_name,
        };
        lemma_closed_put(s5, id, TypeModel::Amf3Object(props), PropertiesModel::Amf3ObjectProperties(info));
    }
}

proof fn lemma_read_object_grows(s: ReaderModel, object_id: Option<isize>)
    ensures
        grows(s, read_amf3_object(s, object_id).0),
    decreases s.remaining(), 4nat,
{
    let (s1, id) = s.take_id(object_id, TypeModel::Amf3Undefined);
    if graph_closed(s) {
        lemma_closed_take_id(s, object_id, TypeModel::Amf3Undefined);
    }
    lemma_read_u29_grows(s1, id, SyntaxClass::Amf3Integer);
    let (s2, r) = read_u29(s1, id, SyntaxClass::Amf3Integer);
    if r is Some {
        let h = r.unwrap() / 2;
        if h % 2 == 0 {
            if graph_closed(s2) {
                assert(props_ok(seq![], s2.objects.len(), s2.is_error));
                lemma_closed_put(s2, id, TypeModel::Amf3Object(seq![]), PropertiesModel::Amf3ObjectProperties(
                    crate::model::bare_object(true),
                ));
            }
        } else if s2.remaining() <= s.remaining() {
            lemma_inline_object_grows(s2, id, h / 2);
        }
    }
}

/// Reading an AMF3 value only grows the graph, and gives an id that names an
/// entry, or `ERROR_ID` once the pass has failed.
#[verifier::rlimit(50)]
pub proof fn lemma_amf3_value_grows(s: ReaderModel)
    ensures
        grows(s, amf3_value(s).0),
        ids_fit(amf3_value(s).0) ==> id_ok(amf3_value(s).1, amf3_value(s).0.objects.len(), amf3_value(s).0.is_error),
    decreases s.remaining(), 0nat,
{
    if s.is_error {
    } else if s.remaining() == 0 {
        if graph_closed(s) {
            lemma_closed_fail(s);
        }
    } else {
        let b = s.buffer[s.head as int];
        let id = s.next_id();
        let s0 = s.consume(1, id, amf3_marker_class(b));
        let s1 = s0.reserve(TypeModel::Amf3Undefined);
        let s2 = amf3_value(s).0;
        if graph_closed(s) {
            lemma_closed_reserve(s0, TypeModel::Amf3Undefined);
        }
        assert(grows(s, s1));
        if b == 0x04 {
            lemma_read_amf3_integer_grows(s1, Some(id));
            assert(s2 == read_amf3_integer(s1, Some(id)).0);
        } else if b == 0x05 {
            lemma_read_number_grows(s1, id);
            let (t, v) = read_number(s1, id);
            if v is Some && graph_closed(t) {
                lemma_closed_put(t, id, TypeModel::Amf3Double(v.unwrap()), PropertiesModel::AmfNoProperties);
            }
            assert(grows(s1, s2));
        } else if b == 0x06 {
            lemma_read_amf3_string_grows(s1, Some(id));
            assert(s2 == read_amf3_string(s1, Some(id)).0);
        } else if b == 0x08 {
            if s1.remaining() < s.remaining() {
                lemma_read_array_grows(s1, Some(id));
            }
            assert(grows(s1, s2));
        } else if b == 0x0A {
            if s1.remaining() < s.remaining() {
                lemma_read_object_grows(s1, Some(id));
            }
            assert(grows(s1, s2));
        } else {
            assert(grows(s1, s2));
        }
    }
}


proof fn lemma_read_amf0_utf8_grows(s: ReaderModel, color: SyntaxClass, object_id: Option<isize>)
    ensures
        grows(s, read_amf0_utf8(s, color, object_id).0),
{
    let (s1, id) = s.take_id(object_id, TypeModel::Amf0Undefined);
    if graph_closed(s) {
        lemma_closed_take_id(s, object_id, TypeModel::Amf0Undefined);
        lemma_closed_fail(s1);
        let s2 = crate::model::read_amf0_utf_length(s1, color, id).0;
        lemma_closed_fail(s2);
    }
}

proof fn lemma_amf0_members_grows(s: ReaderModel, id: isize)
    ensures
        grows(s, amf0_members(s, id)),
    decreases s.remaining(), 1nat,
{
    if !s.is_error {
        lemma_read_amf0_utf8_grows(s, SyntaxClass::Amf0ObjectKey(s.layer), None);
        let (s1, key) = read_amf0_utf8(s, SyntaxClass::Amf0ObjectKey(s.layer), None);
        if !s1.is_error {
            if key.len() == 0 && s1.remaining() == 0 {
                if graph_closed(s1) {
                    lemma_closed_fail(s1);
                }
            } else if !(key.len() == 0 && s1.buffer[s1.head as int] == 0x09) {
                let s2 = if key.len() == 0 { s1.consume(1, id, SyntaxClass::Amf0ObjectMarker) } else { s1 };
                if s2.remaining() < s.remaining() {
                    lemma_amf0_value_grows(s2);
                    let s3 = amf0_value(s2).0;
                    if s3.remaining() <= s2.remaining() {
                        lemma_amf0_members_grows(s3, id);
                    }
                }
            }
        }
    }
}

proof fn lemma_amf0_object_grows(s: ReaderModel, id: isize)
    ensures
        grows(s, amf0_object(s, id)),
    decreases s.remaining(), 3nat,
{
    let s1 = s.put(id, TypeModel::Amf0Object, PropertiesModel::Amf0ObjectProperties);
    lemma_amf0_members_grows(s1.with_layer(deeper(s1.layer)), id);
}

proof fn lemma_amf0_typed_object_grows(s: ReaderModel, id: isize)
    ensures
        grows(s, amf0_typed_object(s, id)),
    decreases s.remaining(), 3nat,
{
    let s1 = s.put(id, TypeModel::Amf0TypedObject, PropertiesModel::Amf0TypedObjectProperties);
    let s2 = s1.with_layer(deeper(s1.layer));
    lemma_read_amf0_utf8_grows(s2, SyntaxClass::Amf0TypedObjectName(s2.layer), None);
    let s3 = read_amf0_utf8(s2, SyntaxClass::Amf0TypedObjectName(s2.layer), None).0;
    if !(s3.is_error || s3.remaining() > s.remaining()) {
        lemma_amf0_members_grows(s3.with_layer(deeper(s3.layer)), id);
    }
}

/// Reading an AMF0 value only grows the graph and keeps it closed.
#[verifier::rlimit(50)]
pub proof fn lemma_amf0_value_grows(s: ReaderModel)
    ensures
        grows(s, amf0_value(s).0),
    decreases s.remaining(), 2nat,
{
    if s.is_error {
    } else if s.remaining() == 0 {
        if graph_closed(s) {
            lemma_closed_fail(s);
        }
    } else {
        let b = s.buffer[s.head as int];
        let id = s.next_id();
        let s0 = s.consume(1, id, amf0_marker_class(b));
        let s1 = s0.reserve(TypeModel::Amf0Undefined);
        let s2 = amf0_value(s).0;
        if graph_closed(s) {
            lemma_closed_reserve(s0, TypeModel::Amf0Undefined);
        }
        assert(grows(s, s1));
        if b == 0x00 {
            lemma_read_number_grows(s1, id);
            assert(grows(s1, s2));
        } else if b == 0x01 {
            if graph_closed(s1) {
                lemma_closed_fail(s1);
            }
            assert(s2 == read_amf0_bool(s1, id));
            assert(grows(s1, s2));
        } else if b == 0x02 {
            lemma_read_amf0_utf8_grows(s1, SyntaxClass::Amf0String, Some(id));
            assert(grows(s1, s2));
        } else if b == 0x03 {
            lemma_amf0_object_grows(s1, id);
            assert(s2 == amf0_object(s1, id));
        } else if b == 0x10 {
            lemma_amf0_typed_object_grows(s1, id);
            assert(s2 == amf0_typed_object(s1, id));
        } else {
            assert(grows(s1, s2));
        }
    }
}

proof fn lemma_highlight_loop_grows(s: ReaderModel)
    requires
        s.wf(),
    ensures
        grows(s, highlight_loop(s)),
    decreases s.remaining(),
{
    if s.remaining() > 0 {
        if s.is_error {
            lemma_highlight_loop_grows(s.consume(1, ERROR_ID, SyntaxClass::Error));
        } else if s.encoding == 0 {
            lemma_amf0_value_grows(s);
            lemma_amf0_value_frame(s);
            lemma_highlight_loop_grows(amf0_value(s).0);
        } else {
            lemma_amf3_value_grows(s);
            lemma_amf3_value_frame(s);
            lemma_highlight_loop_grows(amf3_value(s).0);
        }
    }
}

/// Every child id that an array or object of the finished graph holds names
/// an entry of the graph, or is `ERROR_ID`, which the graph then also holds;
/// this for every graph whose ids fit in `isize`.
pub proof fn lemma_children_resolve(b: Seq<u8>, is_command: bool)
    requires
        decode(b, is_command).objects.len() < isize::MAX,
    ensures
        forall|i: int|
            0 <= i < decode(b, is_command).objects.len() ==> refs_ok(
                #[trigger] decode(b, is_command).objects[i].kind,
                decode(b, is_command).objects.len(),
                decode(b, is_command).error_object is Some,
            ),
{
    let s0 = initial(b, is_command);
    lemma_highlight_loop_grows(s0);
    let d = decode(b, is_command);
    assert(graph_closed(d));
    assert(d.is_error ==> d.error_object is Some);
    assert forall|i: int| 0 <= i < d.objects.len() implies refs_ok(
        #[trigger] d.objects[i].kind,
        d.objects.len(),
        d.error_object is Some,
    ) by {
        lemma_refs_ok_mono(d.objects[i].kind, d.objects.len(), d.is_error, d.objects.len(), d.error_object is Some);
    }
}

} // verus!
