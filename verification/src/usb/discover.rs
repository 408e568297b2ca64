//! Finding the devices that offer an MTP interface.
//!
//! The host walks the devices that it can see, opens each one, reads and parses the configuration
//! descriptor, reads the name of each interface that could be MTP with a vendor class, and chooses
//! the MTP interface by class or by name. A device that the host cannot open or read is no fault,
//! because most devices on a bus are not telephones.

use vstd::prelude::*;
use vstd::string::*;

use crate::text;
use crate::usb::descriptor;
use crate::usb::descriptor::{ConfigDescriptor, DescriptorError, Interface, MtpInterface};
use crate::usb::device::DeviceHandle;

verus! {

/// A bus number and an address on that bus, as `ugen0.11` names them.
pub type Node = (u8, u8);

/// The string of a device that names its maker.
pub const MAKER_STRING: u8 = 1;
/// The string of a device that names its model.
pub const MODEL_STRING: u8 = 2;

/// A device whose configuration was read, and whose interface names are still to be read.
#[derive(Debug, Clone, PartialEq, Eq)]
pub struct Inspection {
    /// The device.
    pub device: DeviceHandle,
    /// The configuration of the device.
    pub config: ConfigDescriptor,
    /// The string indexes of the interfaces that could be MTP with a vendor class.
    pub wanted: Vec<u8>,
}

/// A device that offers an MTP interface.
#[derive(Debug, Clone, PartialEq, Eq)]
pub struct Found {
    /// The MTP interface, with both bulk endpoints.
    pub iface: MtpInterface,
    /// The configuration descriptor, for a caller that reports what it saw.
    pub config: ConfigDescriptor,
    /// The bus of the device.
    pub bus: u8,
    /// The address of the device on the bus.
    pub address: u8,
    /// The vendor identifier of the device.
    pub vendor_id: u16,
    /// The product identifier of the device.
    pub product_id: u16,
}

/// The node name of a device, in the form the mount programs of FreeBSD use.
pub open spec fn node_text(bus: u8, address: u8) -> Seq<char> {
    "ugen"@ + text::decimal(bus as nat) + "."@ + text::decimal(address as nat)
}

/// A text that may be absent.
pub open spec fn or_empty(s: Option<String>) -> Seq<char> {
    match s {
        Some(t) => t@,
        None => Seq::empty(),
    }
}

impl Found {
    /// The node name, in the form the mount programs of FreeBSD use.
    pub fn node(&self) -> (r: String)
        ensures
            r@ == node_text(self.bus, self.address),
    {
        let mut s: String = String::new();
        s.append("ugen");
        text::push_decimal(&mut s, self.bus as u128);
        s.append(".");
        text::push_decimal(&mut s, self.address as u128);
        proof {
            assert(s@ =~= node_text(self.bus, self.address));
        }
        s
    }

    /// The maker and the model, for a person to read.
    ///
    /// [`MAKER_STRING`] holds the maker and [`MODEL_STRING`] holds the model. A device that gives
    /// neither gives an empty name.
    pub fn name(&self, maker: Option<String>, model: Option<String>) -> (r: String)
        ensures
            r@ == text::trim_end(text::trim_start(or_empty(maker) + seq![' '] + or_empty(model))),
    {
        let mut s: String = match maker {
            Some(t) => t,
            None => String::new(),
        };
        s.push(' ');
        match model {
            Some(t) => {
                s.append(t.as_str());
            },
            None => {},
        }
        proof {
            assert(s@ =~= or_empty(maker) + seq![' '] + or_empty(model));
        }
        text::trim(s.as_str())
    }
}

/// The string indexes of the interfaces that could be MTP with a vendor class, in order.
pub open spec fn wanted_names(ifaces: Seq<descriptor::InterfaceView>) -> Seq<u8>
    decreases ifaces.len(),
{
    if ifaces.len() == 0 {
        Seq::empty()
    } else {
        let before = wanted_names(ifaces.drop_last());
        if ifaces.last().vendor_mtp_candidate() {
            before.push(ifaces.last().string_index)
        } else {
            before
        }
    }
}

/// Gives the string indexes of the interfaces that could be MTP with a vendor class.
fn names_to_read(interfaces: &Vec<Interface>) -> (r: Vec<u8>)
    ensures
        r@ == wanted_names(descriptor::interface_views(interfaces@)),
{
    let mut out: Vec<u8> = Vec::new();
    let ghost views = descriptor::interface_views(interfaces@);
    proof {
        assert(views.take(0) =~= Seq::empty());
    }
    let mut i: usize = 0;
    while i < interfaces.len()
        invariant
            i <= interfaces@.len(),
            views == descriptor::interface_views(interfaces@),
            out@ == wanted_names(views.take(i as int)),
        decreases interfaces@.len() - i,
    {
        proof {
            assert(views.take(i + 1).drop_last() =~= views.take(i as int));
        }
        if interfaces[i].is_vendor_mtp_candidate() {
            out.push(interfaces[i].string_index);
        }
        i = i + 1;
    }
    proof {
        assert(views.take(views.len() as int) =~= views);
    }
    out
}

/// Looks at the configuration descriptor of one device.
///
/// The function gives `None` for a descriptor that does not parse. Otherwise it says which
/// interface names are to be read before the device can be judged: a Motorola Moto G (5) needs
/// them, and a Samsung SM-S901U does not.
pub fn inspect(device: DeviceHandle, raw: &[u8]) -> (r: Option<Inspection>)
    ensures
        match r {
            Some(i) => {
                &&& i.device == device
                &&& descriptor::config_interfaces(raw@) == Ok::<
                    Seq<descriptor::InterfaceView>,
                    descriptor::DescriptorError,
                >(descriptor::interface_views(i.config.interfaces@))
                &&& i.config.total_length == crate::ptp::bytes::u16_at(raw@, 2)
                &&& i.config.num_interfaces == raw@[4]
                &&& i.config.configuration_value == raw@[5]
                &&& i.wanted@ == wanted_names(descriptor::interface_views(i.config.interfaces@))
            },
            None => descriptor::config_interfaces(raw@) is Err,
        },
{
    match ConfigDescriptor::parse(raw) {
        Ok(config) => {
            let wanted = names_to_read(&config.interfaces);
            Some(Inspection { device, config, wanted })
        },
        Err(_) => None,
    }
}

impl Inspection {
    /// Judges the device, with the names that it gave for the wanted strings.
    ///
    /// The function gives `None` for a device with no MTP interface.
    pub fn finish(self, names: &[(u8, Option<String>)]) -> (r: Option<Found>)
        ensures
            match r {
                Some(f) => {
                    &&& descriptor::mtp_by_class_or_name(
                        descriptor::interface_views(self.config.interfaces@),
                        names@,
                    ) == Ok::<MtpInterface, descriptor::DescriptorError>(f.iface)
                    &&& f.config == self.config
                    &&& f.bus == self.device.bus
                    &&& f.address == self.device.address
                    &&& f.vendor_id == self.device.vendor_id
                    &&& f.product_id == self.device.product_id
                },
                None => descriptor::mtp_by_class_or_name(
                    descriptor::interface_views(self.config.interfaces@),
                    names@,
                ) is Err,
            },
    {
        match MtpInterface::find_with_names(&self.config, names) {
            Ok(iface) => Some(
                Found {
                    iface,
                    config: self.config,
                    bus: self.device.bus,
                    address: self.device.address,
                    vendor_id: self.device.vendor_id,
                    product_id: self.device.product_id,
                },
            ),
            Err(_) => None,
        }
    }
}

/// Whether a device is the one that a caller names. A caller that names none takes any device.
pub open spec fn is_wanted(device: DeviceHandle, node: Option<Node>) -> bool {
    match node {
        Some((bus, address)) => device.bus == bus && device.address == address,
        None => true,
    }
}

/// The next device to inspect, from position `i` on.
pub open spec fn next_wanted(devices: Seq<DeviceHandle>, node: Option<Node>, i: int) -> Option<usize>
    decreases devices.len() - i,
{
    if i >= devices.len() {
        None
    } else if is_wanted(devices[i], node) {
        Some(i as usize)
    } else {
        next_wanted(devices, node, i + 1)
    }
}

/// Finds the next device to inspect, at position `from` or behind it.
///
/// A caller that names a device gets that device, and no other. The choice needs no open device,
/// because an open costs time.
pub fn find(devices: &[DeviceHandle], node: Option<Node>, from: usize) -> (r: Option<usize>)
    ensures
        r == next_wanted(devices@, node, from as int),
{
    let mut i: usize = from;
    while i < devices.len()
        invariant
            from <= i,
            next_wanted(devices@, node, from as int) == next_wanted(devices@, node, i as int),
        decreases devices@.len() - i,
    {
        let wanted: bool = match node {
            Some((bus, address)) => devices[i].bus == bus && devices[i].address == address,
            None => true,
        };
        if wanted {
            return Some(i);
        }
        i = i + 1;
    }
    None
}

/// The devices that offer an MTP interface, among those that were inspected, in order.
pub open spec fn offering(inspected: Seq<Option<Found>>) -> Seq<Found>
    decreases inspected.len(),
{
    if inspected.len() == 0 {
        Seq::empty()
    } else {
        let before = offering(inspected.drop_last());
        match inspected.last() {
            Some(f) => before.push(f),
            None => before,
        }
    }
}

/// Lists every device that offers an MTP interface, in the order in which they were inspected.
pub fn list(inspected: Vec<Option<Found>>) -> (r: Vec<Found>)
    ensures
        r@ == offering(inspected@),
{
    let ghost all = inspected@;
    let mut out: Vec<Found> = Vec::new();
    proof {
        assert(all.take(0) =~= Seq::empty());
    }
    for one in it: inspected
        invariant
            it.seq() == all,
            out@ == offering(all.take(it.index() as int)),
    {
        proof {
            let i = it.index() as int;
            assert(all.take(i + 1).drop_last() =~= all.take(i));
            assert(all.take(i + 1).last() == one);
        }
        if let Some(f) = one {
            out.push(f);
        }
    }
    proof {
        assert(all.take(all.len() as int) =~= all);
    }
    out
}

/// Tells you if any device offers an MTP interface.
pub fn any(inspected: &[Option<Found>]) -> (r: bool)
    ensures
        r == exists|i: int| 0 <= i < inspected@.len() && (#[trigger] inspected@[i]) is Some,
{
    let mut i: usize = 0;
    while i < inspected.len()
        invariant
            i <= inspected@.len(),
            forall|k: int| 0 <= k < i ==> (#[trigger] inspected@[k]) is None,
        decreases inspected@.len() - i,
    {
        if inspected[i].is_some() {
            return true;
        }
        i = i + 1;
    }
    false
}

/// A listing is empty exactly when no device offers an MTP interface.
pub proof fn law_a_listing_names_each_device(inspected: Seq<Option<Found>>)
    ensures
        (offering(inspected).len() > 0) == exists|i: int|
            0 <= i < inspected.len() && (#[trigger] inspected[i]) is Some,
        forall|i: int|
            0 <= i < inspected.len() && (#[trigger] inspected[i]) is Some ==> offering(
                inspected,
            ).contains(inspected[i]->0),
    decreases inspected.len(),
{
    if inspected.len() > 0 {
        let front = inspected.drop_last();
        let found = offering(inspected);
        law_a_listing_names_each_device(front);
        assert forall|i: int| 0 <= i < inspected.len() && (#[trigger] inspected[i]) is Some implies
            found.contains(inspected[i]->0) by {
            if i < front.len() {
                assert(front[i] == inspected[i]);
                let k = offering(front).index_of(inspected[i]->0);
                assert(found[k] == inspected[i]->0);
            } else {
                assert(found[found.len() - 1] == inspected[i]->0);
            }
        }
        if offering(front).len() > 0 {
            let i = choose|i: int| 0 <= i < front.len() && (#[trigger] front[i]) is Some;
            assert(inspected[i] is Some);
        } else if inspected.last() is Some {
            assert(inspected[inspected.len() - 1] is Some);
        }
        if exists|i: int| 0 <= i < inspected.len() && (#[trigger] inspected[i]) is Some {
            let i = choose|i: int| 0 <= i < inspected.len() && (#[trigger] inspected[i]) is Some;
            assert(found.contains(inspected[i]->0));
        }
    }
}

/// What the host read of a device.
#[derive(Debug, Clone, PartialEq, Eq)]
pub struct DeviceRead {
    /// The device.
    pub device: DeviceHandle,
    /// The raw configuration descriptor.
    pub config: Vec<u8>,
    /// The names that the device gave for the string indexes of its vendor interfaces.
    pub names: Vec<(u8, Option<String>)>,
}

/// Whether an interface carries adb.
pub open spec fn shows_adb(ifaces: Seq<descriptor::InterfaceView>) -> bool {
    exists|i: int| 0 <= i < ifaces.len() && (#[trigger] ifaces[i]).adb()
}

/// Whether a descriptor shows adb, and no interface is MTP by class or by name.
pub open spec fn adb_without_mtp(raw: Seq<u8>, names: Seq<(u8, Option<String>)>) -> bool {
    match descriptor::config_interfaces(raw) {
        Ok(ifaces) => shows_adb(ifaces) && descriptor::mtp_by_class_or_name(ifaces, names) == Err::<
            MtpInterface,
            DescriptorError,
        >(DescriptorError::NoMtpInterface),
        Err(_) => false,
    }
}

/// Says whether a descriptor shows adb, and no interface is MTP by class or by name.
fn shows_adb_without_mtp(raw: &[u8], names: &[(u8, Option<String>)]) -> (r: bool)
    ensures
        r == adb_without_mtp(raw@, names@),
{
    let config = match ConfigDescriptor::parse(raw) {
        Ok(config) => config,
        Err(_) => {
            return false;
        },
    };
    match MtpInterface::find_with_names(&config, names) {
        Err(DescriptorError::NoMtpInterface) => {},
        _ => {
            return false;
        },
    }
    let ghost views = descriptor::interface_views(config.interfaces@);
    let mut i: usize = 0;
    while i < config.interfaces.len()
        invariant
            i <= config.interfaces@.len(),
            views == descriptor::interface_views(config.interfaces@),
            descriptor::config_interfaces(raw@) == Ok::<
                Seq<descriptor::InterfaceView>,
                DescriptorError,
            >(views),
            descriptor::mtp_by_class_or_name(views, names@) == Err::<MtpInterface, DescriptorError>(
                DescriptorError::NoMtpInterface,
            ),
            forall|k: int| 0 <= k < i ==> !(#[trigger] views[k]).adb(),
        decreases config.interfaces@.len() - i,
    {
        proof {
            assert(views[i as int] == config.interfaces@[i as int]@);
        }
        if config.interfaces[i].is_adb() {
            return true;
        }
        i = i + 1;
    }
    false
}

/// The devices among these that show adb and no MTP.
pub open spec fn androids(devices: Seq<DeviceRead>) -> Seq<(u8, u8, u16, u16)>
    decreases devices.len(),
{
    if devices.len() == 0 {
        Seq::empty()
    } else {
        let before = androids(devices.drop_last());
        let last = devices.last();
        let d = last.device;
        if adb_without_mtp(last.config@, last.names@) {
            before.push((d.bus, d.address, d.vendor_id, d.product_id))
        } else {
            before
        }
    }
}

/// Lists the devices that show an adb interface and no MTP interface, out of those whose
/// configuration descriptor was read.
///
/// An Android device that is not in file transfer mode still shows adb, if the user turned on USB
/// debugging. The adb interface is therefore a sign that the cable works and the device is awake,
/// and that the mode is wrong. A fault report needs that difference. An interface that is MTP by its name
/// counts as one that is MTP by its class.
pub fn android_without_mtp(devices: &[DeviceRead]) -> (r: Vec<(u8, u8, u16, u16)>)
    ensures
        r@ == androids(devices@),
{
    let mut out: Vec<(u8, u8, u16, u16)> = Vec::new();
    proof {
        assert(devices@.take(0) =~= Seq::empty());
    }
    let mut i: usize = 0;
    while i < devices.len()
        invariant
            i <= devices@.len(),
            out@ == androids(devices@.take(i as int)),
        decreases devices@.len() - i,
    {
        proof {
            assert(devices@.take(i + 1).drop_last() =~= devices@.take(i as int));
        }
        let d = devices[i].device;
        if shows_adb_without_mtp(devices[i].config.as_slice(), devices[i].names.as_slice()) {
            out.push((d.bus, d.address, d.vendor_id, d.product_id));
        }
        i = i + 1;
    }
    proof {
        assert(devices@.take(devices@.len() as int) =~= devices@);
    }
    out
}

/// A device has no MTP interface exactly where none of its interfaces is MTP, by class or by name. A device
/// that offers MTP is therefore never listed as one without it.
pub proof fn law_no_mtp_means_none_by_class_or_name(
    ifaces: Seq<descriptor::InterfaceView>,
    names: Seq<(u8, Option<String>)>,
)
    ensures
        (descriptor::mtp_by_class_or_name(ifaces, names) == Err::<MtpInterface, DescriptorError>(
            DescriptorError::NoMtpInterface,
        )) <==> (forall|i: int|
            0 <= i < ifaces.len() ==> !(#[trigger] ifaces[i]).mtp() && !descriptor::named_mtp(
                ifaces[i],
                names,
            )),
{
    lemma_first_classed(ifaces, 0);
    lemma_first_named(ifaces, names, 0);
}

proof fn lemma_first_classed(ifaces: Seq<descriptor::InterfaceView>, from: int)
    requires
        0 <= from,
    ensures
        descriptor::first_classed(ifaces, from) is None <==> (forall|i: int|
            from <= i < ifaces.len() ==> !(#[trigger] ifaces[i]).mtp()),
    decreases ifaces.len() - from,
{
    if from < ifaces.len() {
        lemma_first_classed(ifaces, from + 1);
    }
}

proof fn lemma_first_named(
    ifaces: Seq<descriptor::InterfaceView>,
    names: Seq<(u8, Option<String>)>,
    from: int,
)
    requires
        0 <= from,
    ensures
        descriptor::first_named(ifaces, names, from) is None <==> (forall|i: int|
            from <= i < ifaces.len() ==> !descriptor::named_mtp(#[trigger] ifaces[i], names)),
    decreases ifaces.len() - from,
{
    if from < ifaces.len() {
        lemma_first_named(ifaces, names, from + 1);
    }
}

/// The position of the first dot, from position `i` on.
pub open spec fn first_dot(s: Seq<char>, i: int) -> Option<int>
    decreases s.len() - i,
{
    if i >= s.len() {
        None
    } else if s[i] == '.' {
        Some(i)
    } else {
        first_dot(s, i + 1)
    }
}

/// A node name without the directory that may stand in front of it.
pub open spec fn without_directory(s: Seq<char>) -> Seq<char> {
    if text::has_prefix(s, "/dev/"@) {
        s.skip("/dev/"@.len() as int)
    } else {
        s
    }
}

/// The bus and the address that two numbers with a dot between them spell.
pub open spec fn dotted(s: Seq<char>) -> Option<Node> {
    match first_dot(s, 0) {
        None => None,
        Some(k) => match (text::byte_number(s.take(k)), text::byte_number(s.skip(k + 1))) {
            (Some(bus), Some(address)) => Some((bus, address)),
            _ => None,
        },
    }
}

/// The bus and the address that a node name spells.
pub open spec fn node_of(s: Seq<char>) -> Option<Node> {
    let t = without_directory(s);
    if text::has_prefix(t, "ugen"@) {
        dotted(t.skip("ugen"@.len() as int))
    } else {
        None
    }
}

/// Reads a node name, and gives the bus and the address.
///
/// The function takes `ugen0.11` and `/dev/ugen0.11`, which are the two forms a person writes.
pub fn parse_node(s: &str) -> (r: Option<Node>)
    ensures
        r == node_of(s@),
{
    proof {
        reveal_strlit("/dev/");
        reveal_strlit("ugen");
    }
    let chars = text::chars_of(s);
    proof {
        assert(chars@.skip(0) =~= chars@);
    }
    let mut from: usize = 0;
    if text::starts_with(chars.as_slice(), 0, "/dev/") {
        from = 5;
    }
    let ghost t = without_directory(s@);
    proof {
        assert(t =~= chars@.skip(from as int));
    }
    if !text::starts_with(chars.as_slice(), from, "ugen") {
        return None;
    }
    from = from + 4;
    let ghost u = t.skip(4);
    proof {
        assert(u =~= chars@.skip(from as int));
    }
    let mut dot: usize = from;
    while dot < chars.len() && chars[dot] != '.'
        invariant
            from <= dot <= chars@.len(),
            u == chars@.skip(from as int),
            first_dot(u, 0) == first_dot(u, dot - from),
        decreases chars@.len() - dot,
    {
        dot = dot + 1;
    }
    if dot == chars.len() {
        return None;
    }
    proof {
        assert(u.take(dot - from) =~= chars@.subrange(from as int, dot as int));
        assert(u.skip(dot - from + 1) =~= chars@.subrange(dot + 1, chars@.len() as int));
    }
    let bus = text::parse_byte(vstd::slice::slice_subrange(chars.as_slice(), from, dot));
    let address = text::parse_byte(
        vstd::slice::slice_subrange(chars.as_slice(), dot + 1, chars.len()),
    );
    match (bus, address) {
        (Some(b), Some(a)) => Some((b, a)),
        _ => None,
    }
}

/// The node name of a device reads back as its bus and its address, with and without the directory
/// of devices in front.
pub proof fn law_node_round_trip(bus: u8, address: u8)
    ensures
        node_of(node_text(bus, address)) == Some((bus, address)),
        node_of("/dev/"@ + node_text(bus, address)) == Some((bus, address)),
{
    let name = node_text(bus, address);
    let numbers = text::decimal(bus as nat) + "."@ + text::decimal(address as nat);
    lemma_dotted_numbers(bus, address);
    assert(name =~= "ugen"@ + numbers);
    assert(name.take("ugen"@.len() as int) =~= "ugen"@);
    assert(name.skip("ugen"@.len() as int) =~= numbers);
    assert(!text::has_prefix(name, "/dev/"@)) by {
        reveal_strlit("/dev/");
        reveal_strlit("ugen");
        assert(name[0] == 'u');
        if text::has_prefix(name, "/dev/"@) {
            assert(name.take(5)[0] == "/dev/"@[0]);
        }
    }
    law_directory_does_not_matter(name);
}

proof fn lemma_dotted_numbers(bus: u8, address: u8)
    ensures
        dotted(text::decimal(bus as nat) + "."@ + text::decimal(address as nat)) == Some(
            (bus, address),
        ),
{
    let b = text::decimal(bus as nat);
    let a = text::decimal(address as nat);
    let s = b + "."@ + a;
    text::lemma_decimal_round_trip(bus as nat);
    text::lemma_decimal_round_trip(address as nat);
    reveal_strlit(".");
    assert(s[b.len() as int] == '.');
    assert forall|j: int| 0 <= j < b.len() implies text::is_digit(#[trigger] s[j]) by {
        assert(s[j] == b[j]);
    }
    lemma_first_dot_behind_digits(s, b.len() as int, 0);
    assert(s.take(b.len() as int) =~= b);
    assert(s.skip(b.len() as int + 1) =~= a);
    assert(text::is_digit(b[0]) && text::is_digit(a[0]));
}

proof fn lemma_first_dot_behind_digits(s: Seq<char>, k: int, i: int)
    requires
        0 <= i <= k < s.len(),
        s[k] == '.',
        forall|j: int| 0 <= j < k ==> text::is_digit(#[trigger] s[j]),
    ensures
        first_dot(s, i) == Some(k),
    decreases k - i,
{
    if i < k {
        assert(text::is_digit(s[i]));
        lemma_first_dot_behind_digits(s, k, i + 1);
    }
}

/// The directory of devices in front of a name changes nothing, where the name has none yet.
pub proof fn law_directory_does_not_matter(s: Seq<char>)
    requires
        !text::has_prefix(s, "/dev/"@),
    ensures
        node_of("/dev/"@ + s) == node_of(s),
{
    let long = "/dev/"@ + s;
    assert(long.take("/dev/"@.len() as int) =~= "/dev/"@);
    assert(long.skip("/dev/"@.len() as int) =~= s);
}

/// The search stops at the first device that it may take, and passes over every other one.
pub proof fn law_search_takes_the_first_wanted(devices: Seq<DeviceHandle>, node: Option<Node>, from: int)
    requires
        0 <= from,
        devices.len() <= usize::MAX,
    ensures
        match next_wanted(devices, node, from) {
            Some(i) => from <= i < devices.len() && is_wanted(devices[i as int], node) && forall|
                k: int,
            |
                from <= k < i ==> !is_wanted(#[trigger] devices[k], node),
            None => forall|k: int|
                from <= k < devices.len() ==> !is_wanted(#[trigger] devices[k], node),
        },
    decreases devices.len() - from,
{
    if from < devices.len() && !is_wanted(devices[from], node) {
        law_search_takes_the_first_wanted(devices, node, from + 1);
    }
}

/// Where a search stands.
#[derive(Debug, Clone, Copy, PartialEq, Eq, Structural)]
pub enum SearchStep {
    /// The host must inspect the device at this position, and hand the result to [`inspected`].
    Inspect(usize),
    /// The search is over: the device at this position is the one.
    Found(usize),
    /// The search is over, and no device is the one.
    Absent,
}

/// The step of a search that goes on at position `from`.
pub open spec fn step_from(devices: Seq<DeviceHandle>, node: Option<Node>, from: int) -> SearchStep {
    match next_wanted(devices, node, from) {
        Some(i) => SearchStep::Inspect(i),
        None => SearchStep::Absent,
    }
}

/// The step of a search behind the inspection of the device at position `at`.
pub open spec fn step_behind(
    devices: Seq<DeviceHandle>,
    node: Option<Node>,
    at: int,
    accepted: bool,
) -> SearchStep {
    if accepted {
        SearchStep::Found(at as usize)
    } else {
        step_from(devices, node, at + 1)
    }
}

/// Starts a search for one device that offers an MTP interface.
///
/// `node` names a bus and an address. A value of `None` takes the first device that offers MTP.
pub fn search(devices: &[DeviceHandle], node: Option<Node>) -> (r: SearchStep)
    ensures
        r == step_from(devices@, node, 0),
{
    match find(devices, node, 0) {
        Some(i) => SearchStep::Inspect(i),
        None => SearchStep::Absent,
    }
}

/// Goes on with a search, behind the inspection of the device at position `at`. The search stops at the
/// first device that was accepted, so the host opens no device it does not need.
pub fn inspected(devices: &[DeviceHandle], node: Option<Node>, at: usize, accepted: bool) -> (r:
    SearchStep)
    requires
        at < devices@.len(),
    ensures
        r == step_behind(devices@, node, at as int, accepted),
{
    if accepted {
        return SearchStep::Found(at);
    }
    proof {
        assert(at < devices.len());
    }
    match find(devices, node, at + 1) {
        Some(i) => SearchStep::Inspect(i),
        None => SearchStep::Absent,
    }
}

/// How a search ends that stands at a step, where `accepts` says of each device whether its inspection
/// accepts it.
pub open spec fn search_end(
    devices: Seq<DeviceHandle>,
    node: Option<Node>,
    accepts: Seq<bool>,
    step: SearchStep,
) -> SearchStep
    decreases
            (match step {
                SearchStep::Inspect(i) => devices.len() - i,
                _ => 0,
            }),
    when devices.len() <= usize::MAX && match step {
        SearchStep::Inspect(i) => i < devices.len(),
        _ => true,
    }
    via search_end_decreases
{
    match step {
        SearchStep::Inspect(i) => search_end(
            devices,
            node,
            accepts,
            step_behind(devices, node, i as int, accepts[i as int]),
        ),
        end => end,
    }
}

#[via_fn]
proof fn search_end_decreases(
    devices: Seq<DeviceHandle>,
    node: Option<Node>,
    accepts: Seq<bool>,
    step: SearchStep,
) {
    if let SearchStep::Inspect(i) = step {
        law_search_takes_the_first_wanted(devices, node, i + 1);
    }
}

/// Whether a device is one that a search looks for, and its inspection accepts it.
pub open spec fn matches_search(
    devices: Seq<DeviceHandle>,
    node: Option<Node>,
    accepts: Seq<bool>,
    i: int,
) -> bool {
    is_wanted(devices[i], node) && accepts[i]
}

/// A search finds the first device that is wanted and accepted, and it ends without one only where there is
/// none.
pub proof fn law_a_search_finds_the_first_accepted(
    devices: Seq<DeviceHandle>,
    node: Option<Node>,
    accepts: Seq<bool>,
)
    requires
        devices.len() <= usize::MAX,
    ensures
        match search_end(devices, node, accepts, step_from(devices, node, 0)) {
            SearchStep::Found(i) => {
                &&& i < devices.len()
                &&& matches_search(devices, node, accepts, i as int)
                &&& forall|k: int| 0 <= k < i ==> !#[trigger] matches_search(devices, node, accepts, k)
            },
            SearchStep::Absent => forall|k: int|
                0 <= k < devices.len() ==> !#[trigger] matches_search(devices, node, accepts, k),
            SearchStep::Inspect(_) => false,
        },
{
    lemma_search_from(devices, node, accepts, 0);
}

proof fn lemma_search_from(
    devices: Seq<DeviceHandle>,
    node: Option<Node>,
    accepts: Seq<bool>,
    from: int,
)
    requires
        devices.len() <= usize::MAX,
        0 <= from,
    ensures
        match search_end(devices, node, accepts, step_from(devices, node, from)) {
            SearchStep::Found(i) => {
                &&& from <= i < devices.len()
                &&& matches_search(devices, node, accepts, i as int)
                &&& forall|k: int|
                    from <= k < i ==> !#[trigger] matches_search(devices, node, accepts, k)
            },
            SearchStep::Absent => forall|k: int|
                from <= k < devices.len() ==> !#[trigger] matches_search(devices, node, accepts, k),
            SearchStep::Inspect(_) => false,
        },
    decreases devices.len() - from,
{
    law_search_takes_the_first_wanted(devices, node, from);
    let absent = SearchStep::Absent;
    assert(search_end(devices, node, accepts, absent) == absent);
    if let Some(i) = next_wanted(devices, node, from) {
        let step = SearchStep::Inspect(i);
        law_search_takes_the_first_wanted(devices, node, i + 1);
        assert(search_end(devices, node, accepts, step) == search_end(
            devices,
            node,
            accepts,
            step_behind(devices, node, i as int, accepts[i as int]),
        ));
        if accepts[i as int] {
            let found = SearchStep::Found(i);
            assert(search_end(devices, node, accepts, found) == found);
        } else {
            lemma_search_from(devices, node, accepts, i + 1);
            assert(!matches_search(devices, node, accepts, i as int));
        }
    }
}

/// The names to read are those of the interfaces of class 0xff, subclass 0xff and protocol 0 that have one, all
/// of them and in order, whatever endpoints the interfaces have.
pub proof fn law_which_names_are_read(
    a: Seq<descriptor::InterfaceView>,
    b: Seq<descriptor::InterfaceView>,
    x: descriptor::InterfaceView,
)
    ensures
        wanted_names(a + b) == wanted_names(a) + wanted_names(b),
        x.class == 0xff && x.subclass == 0xff && x.protocol == 0 && x.string_index != 0
            ==> wanted_names(seq![x]) == seq![x.string_index],
        !(x.class == 0xff && x.subclass == 0xff && x.protocol == 0 && x.string_index != 0)
            ==> wanted_names(seq![x]).len() == 0,
    decreases b.len(),
{
    assert(seq![x].drop_last() =~= Seq::empty());
    assert(wanted_names(seq![x].drop_last()) =~= Seq::empty());
    assert(wanted_names(Seq::<descriptor::InterfaceView>::empty()).push(x.string_index) =~= seq![
        x.string_index,
    ]);
    if b.len() == 0 {
        assert(a + b =~= a);
        assert(wanted_names(a) + wanted_names(b) =~= wanted_names(a));
    } else {
        law_which_names_are_read(a, b.drop_last(), x);
        assert((a + b).drop_last() =~= a + b.drop_last());
        assert((a + b).last() == b.last());
        assert(wanted_names(a + b) =~= wanted_names(a) + wanted_names(b));
    }
}

/// A list holds each device that was found, once and in order, and nothing for the others.
pub proof fn law_a_list_holds_what_was_found(a: Seq<Option<Found>>, b: Seq<Option<Found>>, f: Found)
    ensures
        offering(a + b) == offering(a) + offering(b),
        offering(seq![Some(f)]) == seq![f],
        offering(seq![None::<Found>]).len() == 0,
    decreases b.len(),
{
    assert(seq![Some(f)].drop_last() =~= Seq::empty());
    assert(seq![None::<Found>].drop_last() =~= Seq::empty());
    assert(offering(Seq::<Option<Found>>::empty()) =~= Seq::empty());
    assert(offering(seq![Some(f)]) =~= seq![f]);
    if b.len() == 0 {
        assert(a + b =~= a);
        assert(offering(a) + offering(b) =~= offering(a));
    } else {
        law_a_list_holds_what_was_found(a, b.drop_last(), f);
        assert((a + b).drop_last() =~= a + b.drop_last());
        assert((a + b).last() == b.last());
        assert(offering(a + b) =~= offering(a) + offering(b));
    }
}

/// Which devices show adb and no MTP: those whose descriptor can be read, with an interface of class 0xff,
/// subclass 0x42 and protocol 1, with none of class 6, 1, 1, and with none that is called `MTP`. Each of them
/// stands in the answer with its bus, its address and its two numbers, in order.
pub proof fn law_which_devices_show_adb_alone(a: Seq<DeviceRead>, b: Seq<DeviceRead>, d: DeviceRead)
    ensures
        androids(a + b) == androids(a) + androids(b),
        match descriptor::config_interfaces(d.config@) {
            Err(_) => androids(seq![d]).len() == 0,
            Ok(ifaces) => {
                let shown = (exists|i: int|
                    0 <= i < ifaces.len() && (#[trigger] ifaces[i]).class == 0xff
                        && ifaces[i].subclass == 0x42 && ifaces[i].protocol == 1) && (forall|i: int|
                    0 <= i < ifaces.len() ==> !descriptor::is_classed_mtp(#[trigger] ifaces[i]))
                    && (forall|i: int, k: int|
                    0 <= i < ifaces.len() ==> !#[trigger] descriptor::is_called_mtp(
                        ifaces[i],
                        d.names@,
                        k,
                    ));
                &&& shown ==> androids(seq![d]) == seq![
                    (d.device.bus, d.device.address, d.device.vendor_id, d.device.product_id),
                ]
                &&& !shown ==> androids(seq![d]).len() == 0
            },
        },
    decreases b.len(),
{
    let one = seq![d];
    assert(one.drop_last() =~= Seq::empty());
    assert(androids(one.drop_last()) =~= Seq::empty());
    if let Ok(ifaces) = descriptor::config_interfaces(d.config@) {
        law_no_mtp_means_none_by_class_or_name(ifaces, d.names@);
        assert forall|i: int| 0 <= i < ifaces.len() implies (descriptor::named_mtp(
            #[trigger] ifaces[i],
            d.names@,
        ) <==> exists|k: int| #[trigger] descriptor::is_called_mtp(ifaces[i], d.names@, k)) by {
            descriptor::lemma_called(ifaces[i], d.names@);
        }
        assert forall|i: int| 0 <= i < ifaces.len() implies (#[trigger] ifaces[i]).mtp()
            == descriptor::is_classed_mtp(ifaces[i]) by {}
        let none_called = forall|i: int, k: int|
            0 <= i < ifaces.len() ==> !#[trigger] descriptor::is_called_mtp(
                ifaces[i],
                d.names@,
                k,
            );
        if none_called {
            assert forall|i: int| 0 <= i < ifaces.len() implies !descriptor::named_mtp(
                #[trigger] ifaces[i],
                d.names@,
            ) by {}
        } else {
            let (i, k) = choose|i: int, k: int|
                0 <= i < ifaces.len() && #[trigger] descriptor::is_called_mtp(
                    ifaces[i],
                    d.names@,
                    k,
                );
            assert(descriptor::named_mtp(ifaces[i], d.names@));
        }
        if shows_adb(ifaces) {
            let i = choose|i: int| 0 <= i < ifaces.len() && (#[trigger] ifaces[i]).adb();
            assert(ifaces[i].class == 0xff && ifaces[i].subclass == 0x42);
        }
        if exists|i: int|
            0 <= i < ifaces.len() && (#[trigger] ifaces[i]).class == 0xff && ifaces[i].subclass
                == 0x42 && ifaces[i].protocol == 1 {
            let i = choose|i: int|
                0 <= i < ifaces.len() && (#[trigger] ifaces[i]).class == 0xff && ifaces[i].subclass
                    == 0x42 && ifaces[i].protocol == 1;
            assert(ifaces[i].adb());
        }
        let entry = (d.device.bus, d.device.address, d.device.vendor_id, d.device.product_id);
        assert(Seq::<(u8, u8, u16, u16)>::empty().push(entry) =~= seq![entry]);
    }
    if b.len() == 0 {
        assert(a + b =~= a);
        assert(androids(a) + androids(b) =~= androids(a));
    } else {
        law_which_devices_show_adb_alone(a, b.drop_last(), d);
        assert((a + b).drop_last() =~= a + b.drop_last());
        assert((a + b).last() == b.last());
        assert(androids(a + b) =~= androids(a) + androids(b));
    }
}

/// A search for a node takes the first device on that bus with that address, and a search for any device takes
/// the first one, from the given position on.
pub proof fn law_which_device_a_search_takes(
    devices: &[DeviceHandle],
    node: Option<Node>,
    from: usize,
    r: Option<usize>,
)
    requires
        call_ensures(find, (devices, node, from), r),
        devices@.len() <= usize::MAX,
    ensures
        node is None ==> (r is Some <==> from < devices@.len()) && (r is Some ==> r->0 == from),
        node matches Some((bus, address)) ==> {
            &&& r matches Some(i) ==> from <= i < devices@.len() && devices@[i as int].bus == bus
                && devices@[i as int].address == address
            &&& forall|k: int|
                from <= k < devices@.len() && (#[trigger] devices@[k]).bus == bus
                    && devices@[k].address == address ==> r is Some && r->0 <= k
        },
{
    law_search_takes_the_first_wanted(devices@, node, from as int);
    if let Some((bus, address)) = node {
        assert forall|k: int|
            from <= k < devices@.len() && (#[trigger] devices@[k]).bus == bus && devices@[k].address
                == address implies r is Some && r->0 <= k by {
            assert(is_wanted(devices@[k], node));
        }
    }
}

/// Which texts name a node: `ugen`, a number of one byte, a dot and a number of one byte, with or without
/// `/dev/` in front. The node is those two numbers.
pub proof fn law_which_texts_name_a_node(x: Seq<char>, y: Seq<char>, s: &str, r: Option<Node>)
    requires
        !x.contains('.'),
        s@ == seq!['u', 'g', 'e', 'n'] + x + seq!['.'] + y || s@ == seq!['/', 'd', 'e', 'v', '/'] + (
        seq!['u', 'g', 'e', 'n'] + x + seq!['.'] + y),
        call_ensures(parse_node, (s,), r),
    ensures
        r is Some <==> text::byte_number(x) is Some && text::byte_number(y) is Some,
        r matches Some((bus, address)) ==> text::byte_number(x) == Some(bus) && text::byte_number(y)
            == Some(address),
{
    let short = seq!['u', 'g', 'e', 'n'] + x + seq!['.'] + y;
    assert("/dev/"@ == seq!['/', 'd', 'e', 'v', '/']) by {
        reveal_strlit("/dev/");
        assert("/dev/"@ =~= seq!['/', 'd', 'e', 'v', '/']);
    }
    lemma_short_node(x, y);
    if s@ != short {
        law_directory_does_not_matter(short);
    }
}

proof fn lemma_short_node(x: Seq<char>, y: Seq<char>)
    requires
        !x.contains('.'),
    ensures
        ({
            let short = seq!['u', 'g', 'e', 'n'] + x + seq!['.'] + y;
            &&& !text::has_prefix(short, "/dev/"@)
            &&& node_of(short) == (match (text::byte_number(x), text::byte_number(y)) {
                (Some(bus), Some(address)) => Some((bus, address)),
                _ => None::<Node>,
            })
        }),
{
    reveal_strlit("/dev/");
    reveal_strlit("ugen");
    let tail = x + seq!['.'] + y;
    let short = seq!['u', 'g', 'e', 'n'] + x + seq!['.'] + y;
    assert("ugen"@ =~= seq!['u', 'g', 'e', 'n']);
    assert(short =~= "ugen"@ + tail);
    assert(short.take(4) =~= "ugen"@);
    assert(short.skip(4) =~= tail);
    if text::has_prefix(short, "/dev/"@) {
        assert(short.take(5)[0] == "/dev/"@[0]);
        assert(short[0] == 'u');
    }
    lemma_first_dot(x, y, 0);
    assert(tail.take(x.len() as int) =~= x);
    assert(tail.skip(x.len() as int + 1) =~= y);
}

proof fn lemma_first_dot(x: Seq<char>, y: Seq<char>, i: int)
    requires
        !x.contains('.'),
        0 <= i <= x.len(),
    ensures
        first_dot(x + seq!['.'] + y, i) == Some(x.len() as int),
    decreases x.len() - i,
{
    let s = x + seq!['.'] + y;
    if i < x.len() {
        assert(x.contains(x[i]));
        assert(s[i] == x[i]);
        lemma_first_dot(x, y, i + 1);
    } else {
        assert(s[i] == '.');
    }
}

/// A text without `ugen` at its start, behind the directory where it has one, names no node, and neither does
/// one without a dot.
pub proof fn law_which_texts_name_no_node(s: &str, r: Option<Node>)
    requires
        call_ensures(parse_node, (s,), r),
    ensures
        !text::has_prefix(s@, seq!['u', 'g', 'e', 'n']) && !text::has_prefix(
            s@,
            seq!['/', 'd', 'e', 'v', '/'],
        ) ==> r is None,
        !s@.contains('.') ==> r is None,
{
    reveal_strlit("/dev/");
    reveal_strlit("ugen");
    assert("ugen"@ =~= seq!['u', 'g', 'e', 'n']);
    assert("/dev/"@ =~= seq!['/', 'd', 'e', 'v', '/']);
    if !s@.contains('.') {
        let t = without_directory(s@);
        assert forall|c: char| t.contains(c) implies s@.contains(c) by {
            let k = t.index_of(c);
            if text::has_prefix(s@, "/dev/"@) {
                assert(s@[k + 5] == c);
            }
        }
        if text::has_prefix(t, "ugen"@) {
            let u = t.skip(4);
            assert forall|c: char| u.contains(c) implies t.contains(c) by {
                let k = u.index_of(c);
                assert(t[k + 4] == c);
            }
            lemma_no_dot(u, 0);
        }
    }
}

proof fn lemma_no_dot(s: Seq<char>, i: int)
    requires
        !s.contains('.'),
        0 <= i,
    ensures
        first_dot(s, i) is None,
    decreases s.len() - i,
{
    if i < s.len() {
        assert(s.contains(s[i]));
        lemma_no_dot(s, i + 1);
    }
}

/// A device that was found keeps its place on the bus and its numbers, and has the interface that its
/// descriptor and its names say. It is found exactly where they say one.
pub proof fn law_a_found_device_is_the_inspected_one(
    i: Inspection,
    names: &[(u8, Option<String>)],
    iface: Result<MtpInterface, DescriptorError>,
    r: Option<Found>,
)
    requires
        call_ensures(MtpInterface::find_with_names, (&i.config, names), iface),
        call_ensures(Inspection::finish, (i, names), r),
    ensures
        r is Some <==> iface is Ok,
        r is Some ==> {
            &&& r->0.iface == iface->Ok_0
            &&& r->0.config == i.config
            &&& r->0.bus == i.device.bus
            &&& r->0.address == i.device.address
            &&& r->0.vendor_id == i.device.vendor_id
            &&& r->0.product_id == i.device.product_id
        },
{
}

/// The name of a device is its maker and its model with one space between them, where both are there and have
/// no white space around them.
pub proof fn law_the_name_of_a_found_device(
    f: &Found,
    maker: Option<String>,
    model: Option<String>,
    r: String,
)
    requires
        call_ensures(Found::name, (f, maker, model), r),
    ensures
        maker is Some && model is Some && maker->0@.len() > 0 && model->0@.len() > 0
            && !text::is_white_space(maker->0@[0]) && !text::is_white_space(model->0@.last())
            ==> r@ == maker->0@ + seq![' '] + model->0@,
        maker is Some && model is None && maker->0@.len() > 0 && !text::is_white_space(maker->0@[0])
            && !text::is_white_space(maker->0@.last()) ==> r@ == maker->0@,
        maker is None && model is Some && model->0@.len() > 0 && !text::is_white_space(model->0@[0])
            && !text::is_white_space(model->0@.last()) ==> r@ == model->0@,
        maker is None && model is None ==> r@.len() == 0,
{
    let none = Seq::<char>::empty();
    let space = seq![' '];
    let a = or_empty(maker);
    let b = or_empty(model);
    let whole = a + space + b;
    if a.len() > 0 && b.len() > 0 && !text::is_white_space(a[0]) && !text::is_white_space(b.last()) {
        assert(whole =~= none + whole + none);
        text::lemma_trimmed(none, whole, none);
    }
    if b.len() == 0 && a.len() > 0 && !text::is_white_space(a[0]) && !text::is_white_space(a.last()) {
        assert(whole =~= none + a + space);
        text::lemma_trimmed(none, a, space);
    }
    if a.len() == 0 && b.len() > 0 && !text::is_white_space(b[0]) && !text::is_white_space(b.last()) {
        assert(whole =~= space + b + none);
        text::lemma_trimmed(space, b, none);
    }
    if a.len() == 0 && b.len() == 0 {
        assert(whole =~= space + none + none);
        text::lemma_trimmed(space, none, none);
    }
}

/// There is a device exactly where the list of devices is not empty, and the list holds what was found.
pub proof fn law_any_device_is_a_listed_one(
    inspected: &[Option<Found>],
    v: Vec<Option<Found>>,
    some: bool,
    all: Vec<Found>,
)
    requires
        v@ == inspected@,
        call_ensures(any, (inspected,), some),
        call_ensures(list, (v,), all),
    ensures
        some <==> all@.len() > 0,
        forall|i: int|
            0 <= i < v@.len() && (#[trigger] v@[i]) is Some ==> all@.contains(v@[i]->0),
{
    law_a_listing_names_each_device(v@);
}

/// The name of the node of a device leads back to its place on the bus.
pub proof fn law_a_node_leads_back(f: &Found, name: String, s: &str, r: Option<Node>)
    requires
        call_ensures(Found::node, (f,), name),
        s@ == name@,
        call_ensures(parse_node, (s,), r),
    ensures
        r == Some((f.bus, f.address)),
{
    law_node_round_trip(f.bus, f.address);
}

/// A device can be inspected exactly where its descriptor can be parsed, and the inspection holds the device,
/// the configuration and the string index of every interface whose name may be `MTP`.
pub proof fn law_what_an_inspection_holds(
    device: DeviceHandle,
    raw: &[u8],
    r: Option<Inspection>,
    c: Result<ConfigDescriptor, DescriptorError>,
)
    requires
        call_ensures(inspect, (device, raw), r),
        call_ensures(ConfigDescriptor::parse, (raw,), c),
    ensures
        r is Some <==> c is Ok,
        r is Some ==> {
            &&& r->0.device == device
            &&& descriptor::interface_views(r->0.config.interfaces@) == descriptor::interface_views(
                c->Ok_0.interfaces@,
            )
            &&& r->0.config.total_length == c->Ok_0.total_length
            &&& r->0.config.num_interfaces == c->Ok_0.num_interfaces
            &&& r->0.config.configuration_value == c->Ok_0.configuration_value
            &&& r->0.wanted@ == wanted_names(descriptor::interface_views(r->0.config.interfaces@))
        },
{
}

} // verus!
