//! Operation codes.
//!
//! A device does not support every operation. `GetDeviceInfo` gives the list, and the list decides
//! what a filesystem can do.

use vstd::prelude::*;

verus! {

/// Starts a session.
pub const OPEN_SESSION: u16 = 0x1002;
/// Ends a session.
pub const CLOSE_SESSION: u16 = 0x1003;
/// Reads part of an object. A filesystem needs this operation, because a
/// read asks for an offset and a length.
pub const GET_PARTIAL_OBJECT: u16 = 0x101b;
/// Reads part of an object, with a 64 bit offset. Android adds this one.
pub const GET_PARTIAL_OBJECT_64: u16 = 0x95c1;
/// Writes part of an object, with a 64 bit offset.
pub const SEND_PARTIAL_OBJECT: u16 = 0x95c2;
/// Announces an object the host is about to send.
pub const SEND_OBJECT_INFO: u16 = 0x100c;
/// Sends the bytes of an object.
pub const SEND_OBJECT: u16 = 0x100d;
/// Removes an object.
pub const DELETE_OBJECT: u16 = 0x100b;
/// Moves an object to another folder.
pub const MOVE_OBJECT: u16 = 0x1019;
/// Copies an object.
pub const COPY_OBJECT: u16 = 0x101a;
/// Reads many properties of many objects in one operation. A folder list
/// is fast with this operation, and slow without it.
pub const GET_OBJECT_PROP_LIST: u16 = 0x9805;
/// Lists the properties an object format supports.
pub const GET_OBJECT_PROPS_SUPPORTED: u16 = 0x9801;
/// Changes one property of one object. A rename needs this operation.
pub const SET_OBJECT_PROP_VALUE: u16 = 0x9804;
/// Changes the size of an object.
pub const TRUNCATE_OBJECT: u16 = 0x101c;
/// Starts a write that has no size in advance.
pub const BEGIN_EDIT_OBJECT: u16 = 0x95c4;

/// The name of an operation code.
pub open spec fn name_of(code: u16) -> &'static str {
    match code {
        0x1001 => "GetDeviceInfo",
        0x1002 => "OpenSession",
        0x1003 => "CloseSession",
        0x1004 => "GetStorageIDs",
        0x1005 => "GetStorageInfo",
        0x1006 => "GetNumObjects",
        0x1007 => "GetObjectHandles",
        0x1008 => "GetObjectInfo",
        0x1009 => "GetObject",
        0x100a => "GetThumb",
        0x100b => "DeleteObject",
        0x100c => "SendObjectInfo",
        0x100d => "SendObject",
        0x1014 => "GetDevicePropDesc",
        0x1015 => "GetDevicePropValue",
        0x1016 => "SetDevicePropValue",
        0x1019 => "MoveObject",
        0x101a => "CopyObject",
        0x101b => "GetPartialObject",
        0x101c => "TruncateObject",
        0x9801 => "GetObjectPropsSupported",
        0x9802 => "GetObjectPropDesc",
        0x9803 => "GetObjectPropValue",
        0x9804 => "SetObjectPropValue",
        0x9805 => "GetObjectPropList",
        0x9806 => "SetObjectPropList",
        0x9808 => "SendObjectPropList",
        0x9810 => "GetObjectReferences",
        0x9811 => "SetObjectReferences",
        0x95c1 => "GetPartialObject64",
        0x95c2 => "SendPartialObject",
        0x95c3 => "TruncateObject64",
        0x95c4 => "BeginEditObject",
        0x95c5 => "EndEditObject",
        _ => "unknown",
    }
}

/// Gives a name for an operation code.
pub fn name(code: u16) -> (r: &'static str)
    ensures
        r == name_of(code),
{
    match code {
        0x1001 => "GetDeviceInfo",
        0x1002 => "OpenSession",
        0x1003 => "CloseSession",
        0x1004 => "GetStorageIDs",
        0x1005 => "GetStorageInfo",
        0x1006 => "GetNumObjects",
        0x1007 => "GetObjectHandles",
        0x1008 => "GetObjectInfo",
        0x1009 => "GetObject",
        0x100a => "GetThumb",
        0x100b => "DeleteObject",
        0x100c => "SendObjectInfo",
        0x100d => "SendObject",
        0x1014 => "GetDevicePropDesc",
        0x1015 => "GetDevicePropValue",
        0x1016 => "SetDevicePropValue",
        0x1019 => "MoveObject",
        0x101a => "CopyObject",
        0x101b => "GetPartialObject",
        0x101c => "TruncateObject",
        0x9801 => "GetObjectPropsSupported",
        0x9802 => "GetObjectPropDesc",
        0x9803 => "GetObjectPropValue",
        0x9804 => "SetObjectPropValue",
        0x9805 => "GetObjectPropList",
        0x9806 => "SetObjectPropList",
        0x9808 => "SendObjectPropList",
        0x9810 => "GetObjectReferences",
        0x9811 => "SetObjectReferences",
        0x95c1 => "GetPartialObject64",
        0x95c2 => "SendPartialObject",
        0x95c3 => "TruncateObject64",
        0x95c4 => "BeginEditObject",
        0x95c5 => "EndEditObject",
        _ => "unknown",
    }
}

/// The codes that the library sends and looks for bear the names of their operations, and a code outside the
/// three ranges of operations has no name.
pub proof fn law_which_operation_a_code_stands_for(code: u16, r: &'static str)
    requires
        call_ensures(name, (code,), r),
    ensures
        code == OPEN_SESSION ==> code == 0x1002 && r@ == "OpenSession"@,
        code == CLOSE_SESSION ==> code == 0x1003 && r@ == "CloseSession"@,
        code == DELETE_OBJECT ==> code == 0x100b && r@ == "DeleteObject"@,
        code == SEND_OBJECT_INFO ==> code == 0x100c && r@ == "SendObjectInfo"@,
        code == SEND_OBJECT ==> code == 0x100d && r@ == "SendObject"@,
        code == MOVE_OBJECT ==> code == 0x1019 && r@ == "MoveObject"@,
        code == COPY_OBJECT ==> code == 0x101a && r@ == "CopyObject"@,
        code == GET_PARTIAL_OBJECT ==> code == 0x101b && r@ == "GetPartialObject"@,
        code == TRUNCATE_OBJECT ==> code == 0x101c && r@ == "TruncateObject"@,
        code == GET_OBJECT_PROPS_SUPPORTED ==> code == 0x9801 && r@ == "GetObjectPropsSupported"@,
        code == SET_OBJECT_PROP_VALUE ==> code == 0x9804 && r@ == "SetObjectPropValue"@,
        code == GET_OBJECT_PROP_LIST ==> code == 0x9805 && r@ == "GetObjectPropList"@,
        code == GET_PARTIAL_OBJECT_64 ==> code == 0x95c1 && r@ == "GetPartialObject64"@,
        code == SEND_PARTIAL_OBJECT ==> code == 0x95c2 && r@ == "SendPartialObject"@,
        code == BEGIN_EDIT_OBJECT ==> code == 0x95c4 && r@ == "BeginEditObject"@,
        !(0x1001 <= code <= 0x101c || 0x95c1 <= code <= 0x95c5 || 0x9801 <= code <= 0x9811)
            ==> r@ == "unknown"@,
{
}

/// Two operation codes that have a name have different names.
pub proof fn law_no_two_operations_have_the_same_name(a: u16, b: u16, x: &'static str, y: &'static str)
    requires
        call_ensures(name, (a,), x),
        call_ensures(name, (b,), y),
        x@ == y@,
    ensures
        a == b || x@ == "unknown"@,
{
    reveal_strlit("GetDeviceInfo");
    reveal_strlit("OpenSession");
    reveal_strlit("CloseSession");
    reveal_strlit("GetStorageIDs");
    reveal_strlit("GetStorageInfo");
    reveal_strlit("GetNumObjects");
    reveal_strlit("GetObjectHandles");
    reveal_strlit("GetObjectInfo");
    reveal_strlit("GetObject");
    reveal_strlit("GetThumb");
    reveal_strlit("DeleteObject");
    reveal_strlit("SendObjectInfo");
    reveal_strlit("SendObject");
    reveal_strlit("GetDevicePropDesc");
    reveal_strlit("GetDevicePropValue");
    reveal_strlit("SetDevicePropValue");
    reveal_strlit("MoveObject");
    reveal_strlit("CopyObject");
    reveal_strlit("GetPartialObject");
    reveal_strlit("TruncateObject");
    reveal_strlit("GetObjectPropsSupported");
    reveal_strlit("GetObjectPropDesc");
    reveal_strlit("GetObjectPropValue");
    reveal_strlit("SetObjectPropValue");
    reveal_strlit("GetObjectPropList");
    reveal_strlit("SetObjectPropList");
    reveal_strlit("SendObjectPropList");
    reveal_strlit("GetObjectReferences");
    reveal_strlit("SetObjectReferences");
    reveal_strlit("GetPartialObject64");
    reveal_strlit("SendPartialObject");
    reveal_strlit("TruncateObject64");
    reveal_strlit("BeginEditObject");
    reveal_strlit("EndEditObject");
    reveal_strlit("unknown");
    assert("GetDeviceInfo"@[3] != "GetStorageIDs"@[3]);
    assert("GetDeviceInfo"@[3] != "GetNumObjects"@[3]);
    assert("GetDeviceInfo"@[3] != "GetObjectInfo"@[3]);
    assert("GetDeviceInfo"@[0] != "EndEditObject"@[0]);
    assert("CloseSession"@[0] != "DeleteObject"@[0]);
    assert("GetStorageIDs"@[3] != "GetNumObjects"@[3]);
    assert("GetStorageIDs"@[3] != "GetObjectInfo"@[3]);
    assert("GetStorageIDs"@[0] != "EndEditObject"@[0]);
    assert("GetStorageInfo"@[0] != "SendObjectInfo"@[0]);
    assert("GetStorageInfo"@[0] != "TruncateObject"@[0]);
    assert("GetNumObjects"@[3] != "GetObjectInfo"@[3]);
    assert("GetNumObjects"@[0] != "EndEditObject"@[0]);
    assert("GetObjectHandles"@[3] != "GetPartialObject"@[3]);
    assert("GetObjectHandles"@[0] != "TruncateObject64"@[0]);
    assert("GetObjectInfo"@[0] != "EndEditObject"@[0]);
    assert("SendObjectInfo"@[0] != "TruncateObject"@[0]);
    assert("SendObject"@[0] != "MoveObject"@[0]);
    assert("SendObject"@[0] != "CopyObject"@[0]);
    assert("GetDevicePropDesc"@[3] != "GetObjectPropDesc"@[3]);
    assert("GetDevicePropDesc"@[3] != "GetObjectPropList"@[3]);
    assert("GetDevicePropDesc"@[0] != "SetObjectPropList"@[0]);
    assert("GetDevicePropDesc"@[0] != "SendPartialObject"@[0]);
    assert("GetDevicePropValue"@[0] != "SetDevicePropValue"@[0]);
    assert("GetDevicePropValue"@[3] != "GetObjectPropValue"@[3]);
    assert("GetDevicePropValue"@[0] != "SetObjectPropValue"@[0]);
    assert("GetDevicePropValue"@[0] != "SendObjectPropList"@[0]);
    assert("GetDevicePropValue"@[3] != "GetPartialObject64"@[3]);
    assert("SetDevicePropValue"@[0] != "GetObjectPropValue"@[0]);
    assert("SetDevicePropValue"@[3] != "SetObjectPropValue"@[3]);
    assert("SetDevicePropValue"@[2] != "SendObjectPropList"@[2]);
    assert("SetDevicePropValue"@[0] != "GetPartialObject64"@[0]);
    assert("MoveObject"@[0] != "CopyObject"@[0]);
    assert("GetPartialObject"@[0] != "TruncateObject64"@[0]);
    assert("GetObjectPropDesc"@[13] != "GetObjectPropList"@[13]);
    assert("GetObjectPropDesc"@[0] != "SetObjectPropList"@[0]);
    assert("GetObjectPropDesc"@[0] != "SendPartialObject"@[0]);
    assert("GetObjectPropValue"@[0] != "SetObjectPropValue"@[0]);
    assert("GetObjectPropValue"@[0] != "SendObjectPropList"@[0]);
    assert("GetObjectPropValue"@[3] != "GetPartialObject64"@[3]);
    assert("SetObjectPropValue"@[2] != "SendObjectPropList"@[2]);
    assert("SetObjectPropValue"@[0] != "GetPartialObject64"@[0]);
    assert("GetObjectPropList"@[0] != "SetObjectPropList"@[0]);
    assert("GetObjectPropList"@[0] != "SendPartialObject"@[0]);
    assert("SetObjectPropList"@[2] != "SendPartialObject"@[2]);
    assert("SendObjectPropList"@[0] != "GetPartialObject64"@[0]);
    assert("GetObjectReferences"@[0] != "SetObjectReferences"@[0]);
}

} // verus!
