//! Godot signals forwarded as plain events.

use vstd::prelude::*;
use vstd::string::*;

verus! {

/// Plugin that forwards Godot signals to the ECS as [`GodotSignal`] events.
#[derive(Debug, Clone, Copy, Default)]
pub struct GodotSignalsPlugin;

/// One argument of a forwarded signal: the name of its variant type, its text form, and the
/// instance id of the object it holds, if it holds one.
#[derive(Debug, Clone)]
pub struct GodotSignalArgument {
    pub variant_type: String,
    pub value: String,
    pub instance_id: Option<i64>,
}

/// A signal emitted by a node: its name, the instance ids of the emitting node (`origin`) and of
/// the node the event is about (`target`), and its arguments.
#[derive(Debug, Clone)]
pub struct GodotSignal {
    pub name: String,
    pub origin: i64,
    pub target: i64,
    pub arguments: Vec<GodotSignalArgument>,
}

/// The variant type names that arguments report; every other variant type reports `Unknown`.
pub open spec fn variant_type_label_spec(type_ord: i32) -> Seq<char> {
    if type_ord == 0 {
        seq!['N', 'i', 'l']
    } else if type_ord == 1 {
        seq!['B', 'o', 'o', 'l']
    } else if type_ord == 2 {
        seq!['I', 'n', 't']
    } else if type_ord == 3 {
        seq!['F', 'l', 'o', 'a', 't']
    } else if type_ord == 4 {
        seq!['S', 't', 'r', 'i', 'n', 'g']
    } else if type_ord == 5 {
        seq!['V', 'e', 'c', 't', 'o', 'r', '2']
    } else if type_ord == 9 {
        seq!['V', 'e', 'c', 't', 'o', 'r', '3']
    } else if type_ord == OBJECT_VARIANT_TYPE {
        seq!['O', 'b', 'j', 'e', 'c', 't']
    } else {
        seq!['U', 'n', 'k', 'n', 'o', 'w', 'n']
    }
}

/// The engine's number for the object variant type.
pub const OBJECT_VARIANT_TYPE: i32 = 24;

/// The name reported for the variant type with the engine number `type_ord` (see
/// [`variant_type_label_spec`]).
pub fn variant_type_label(type_ord: i32) -> (r: String)
    ensures
        r@ == variant_type_label_spec(type_ord),
{
    let s: &str = if type_ord == 0 {
        "Nil"
    } else if type_ord == 1 {
        "Bool"
    } else if type_ord == 2 {
        "Int"
    } else if type_ord == 3 {
        "Float"
    } else if type_ord == 4 {
        "String"
    } else if type_ord == 5 {
        "Vector2"
    } else if type_ord == 9 {
        "Vector3"
    } else if type_ord == OBJECT_VARIANT_TYPE {
        "Object"
    } else {
        "Unknown"
    };
    proof {
        reveal_strlit("Nil");
        reveal_strlit("Bool");
        reveal_strlit("Int");
        reveal_strlit("Float");
        reveal_strlit("String");
        reveal_strlit("Vector2");
        reveal_strlit("Vector3");
        reveal_strlit("Object");
        reveal_strlit("Unknown");
    }
    String::from_str(s)
}

/// Builds the argument record of a variant from what the engine reports of it: its type number,
/// its text form, and the instance id of the object it converts to, if it converts to one. Only
/// object variants keep an instance id.
pub fn variant_to_signal_argument(type_ord: i32, value: String, object_id: Option<i64>) -> (r:
    GodotSignalArgument)
    ensures
        r.variant_type@ == variant_type_label_spec(type_ord),
        r.value == value,
        r.instance_id == (if type_ord == OBJECT_VARIANT_TYPE {
            object_id
        } else {
            None
        }),
{
    let variant_type = variant_type_label(type_ord);
    let instance_id = if type_ord == OBJECT_VARIANT_TYPE {
        object_id
    } else {
        None
    };
    GodotSignalArgument { variant_type, value, instance_id }
}

/// The event sent when the signal `name` of the node `node` fires with `arguments`: the node is
/// both its origin and its target.
pub fn signal_event(name: String, node: i64, arguments: Vec<GodotSignalArgument>) -> (r: GodotSignal)
    ensures
        r.name == name,
        r.origin == node,
        r.target == node,
        r.arguments == arguments,
{
    GodotSignal { name, origin: node, target: node, arguments }
}

} // verus!
