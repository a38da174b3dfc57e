//! CH348 port discovery, without depending on fixed device names.
//!
//! `/dev/ttyCH9344USBn` numbering follows enumeration order, not the physical
//! UART wiring, so the SBUS port is not reliably index 6 in the device name.
//! The ch9344 driver exposes a `GETUARTINDEX` ioctl that returns the physical
//! UART number, which is what the board assigns functions to.
//!
//! There is no fallback to enumeration order where the ioctl is unavailable:
//! silently opening the wrong UART (a 4 Mbps RS485 motor bus, say) is worse
//! than failing.
//!
//! The caller lists directories, reads files and issues the ioctl; what is
//! asked for, and what follows from the answers, is decided here.

use vstd::prelude::*;
use vstd::string::StringExecFns;
use vstd::string::StrSliceExecFns;

use crate::text::{decimal_text, join, push_decimal};

verus! {

broadcast use vstd::seq::group_seq_axioms;

/// USB vendor ID of WCH (CH348 / CH9344).
pub const CH348_VID: u16 = 0x1A86;

/// Physical UART index carrying S.BUS on namiashi rev2.
pub const SBUS_UART_INDEX: u16 = 6;

/// How many directories are searched for a vendor ID, from a tty's own device
/// directory upwards.
pub const VENDOR_SEARCH_DEPTH: usize = 8;

/// A CH348 tty together with the physical UART it drives.
#[derive(Debug, Clone, PartialEq, Eq)]
pub struct Ch348Port {
    /// Device node, e.g. `/dev/ttyCH9344USB6`.
    pub path: String,
    /// Physical UART index from `GETUARTINDEX`.
    pub uart_index: u16,
}

/// What a [`Ch348Port`] says.
#[verifier::ext_equal]
pub struct PortModel {
    pub path: Seq<char>,
    pub uart_index: u16,
}

impl View for Ch348Port {
    type V = PortModel;

    open spec fn view(&self) -> PortModel {
        PortModel { path: self.path@, uart_index: self.uart_index }
    }
}

/// What a list of ports says.
pub open spec fn ports_view(ports: Seq<Ch348Port>) -> Seq<PortModel> {
    ports.map_values(|p: Ch348Port| p@)
}

/// What is known of a device node.
#[derive(Debug, Clone, PartialEq, Eq)]
pub struct Probe {
    /// Device node.
    pub path: String,
    /// USB vendor ID, where one was found.
    pub vendor: Option<u16>,
    /// Physical UART index, where the node answered the ioctl.
    pub uart_index: Option<u16>,
}

impl Probe {
    /// The port behind the node, if it is a CH348 that answered.
    pub open spec fn port(self) -> Option<PortModel> {
        if self.vendor == Some(CH348_VID) && self.uart_index is Some {
            Some(PortModel { path: self.path@, uart_index: self.uart_index->0 })
        } else {
            None
        }
    }
}

/// The ports among probed nodes, in the order of the nodes.
pub open spec fn ports_found(probes: Seq<Probe>) -> Seq<PortModel>
    decreases probes.len(),
{
    if probes.len() == 0 {
        Seq::empty()
    } else {
        match probes.last().port() {
            Some(port) => ports_found(probes.drop_last()).push(port),
            None => ports_found(probes.drop_last()),
        }
    }
}

/// The ports that drive a physical UART, in order.
pub open spec fn ports_at(ports: Seq<PortModel>, index: u16) -> Seq<PortModel> {
    ports.filter(|p: PortModel| p.uart_index == index)
}

/// Whether `sorted` holds `ports` by ascending UART index, with ports of the
/// same index in the order that they have in `ports`.
pub open spec fn is_sorted_by_index(sorted: Seq<PortModel>, ports: Seq<PortModel>) -> bool {
    &&& forall|i: int, j: int|
        0 <= i <= j < sorted.len() ==> (#[trigger] sorted[i]).uart_index <= (
        #[trigger] sorted[j]).uart_index
    &&& forall|index: u16| #[trigger] ports_at(sorted, index) == ports_at(ports, index)
}

/// Why no port was chosen.
#[derive(Debug, Clone, PartialEq, Eq)]
pub enum DiscoveryError {
    /// There is no CH348 tty at all.
    NoPorts,
    /// No CH348 tty drives the UART.
    NoSuchUart {
        /// The UART looked for.
        index: u16,
        /// The UARTs that there are.
        available: Vec<u16>,
    },
    /// More than one CH348 tty claims the UART.
    Ambiguous {
        /// The UART looked for.
        index: u16,
        /// The first claimant.
        first: String,
        /// The second claimant.
        second: String,
    },
}

/// What a [`DiscoveryError`] says.
#[verifier::ext_equal]
pub enum DiscoveryErrorModel {
    NoPorts,
    NoSuchUart { index: u16, available: Seq<u16> },
    Ambiguous { index: u16, first: Seq<char>, second: Seq<char> },
}

impl View for DiscoveryError {
    type V = DiscoveryErrorModel;

    open spec fn view(&self) -> DiscoveryErrorModel {
        match *self {
            DiscoveryError::NoPorts => DiscoveryErrorModel::NoPorts,
            DiscoveryError::NoSuchUart { index, available } => DiscoveryErrorModel::NoSuchUart {
                index,
                available: available@,
            },
            DiscoveryError::Ambiguous { index, first, second } => DiscoveryErrorModel::Ambiguous {
                index,
                first: first@,
                second: second@,
            },
        }
    }
}

/// The port chosen for a UART: the only one that drives it.
pub open spec fn port_chosen(ports: Seq<PortModel>, index: u16) -> Result<
    Seq<char>,
    DiscoveryErrorModel,
> {
    let matching = ports_at(ports, index);
    if ports.len() == 0 {
        Err(DiscoveryErrorModel::NoPorts)
    } else if matching.len() == 0 {
        Err(
            DiscoveryErrorModel::NoSuchUart {
                index,
                available: ports.map_values(|p: PortModel| p.uart_index),
            },
        )
    } else if matching.len() > 1 {
        Err(
            DiscoveryErrorModel::Ambiguous {
                index,
                first: matching[0].path,
                second: matching[1].path,
            },
        )
    } else {
        Ok(matching[0].path)
    }
}

/// Whether a node is worth asking for its UART index: other vendors' nodes are
/// left alone.
pub fn is_ch348(vendor: Option<u16>) -> (asks: bool)
    ensures
        asks == (vendor == Some(CH348_VID)),
{
    match vendor {
        Some(vid) => vid == CH348_VID,
        None => false,
    }
}

proof fn lemma_ports_at_push(ports: Seq<PortModel>, port: PortModel, index: u16)
    ensures
        ports_at(ports.push(port), index) == (if port.uart_index == index {
            ports_at(ports, index).push(port)
        } else {
            ports_at(ports, index)
        }),
{
    reveal(Seq::filter);
    assert(ports.push(port).drop_last() =~= ports);
}

proof fn lemma_ports_at_insert(ports: Seq<PortModel>, at: int, port: PortModel, index: u16)
    requires
        0 <= at <= ports.len(),
        forall|k: int| at <= k < ports.len() ==> (#[trigger] ports[k]).uart_index > port.uart_index,
    ensures
        ports_at(ports.insert(at, port), index) == ports_at(ports.push(port), index),
{
    let head = ports.take(at);
    let tail = ports.skip(at);
    let pred = |p: PortModel| p.uart_index == index;
    assert(ports.insert(at, port) =~= head.push(port) + tail);
    assert(ports =~= head + tail);
    Seq::filter_distributes_over_add(head.push(port), tail, pred);
    Seq::filter_distributes_over_add(head, tail, pred);
    lemma_ports_at_push(head, port, index);
    lemma_ports_at_push(ports, port, index);
    if port.uart_index == index {
        assert forall|k: int| 0 <= k < tail.len() implies !pred(#[trigger] tail[k]) by {
            assert(tail[k] == ports[at + k]);
        }
        tail.lemma_all_neg_filter_empty(pred);
        assert(ports_at(head, index).push(port) + ports_at(tail, index) =~= (ports_at(head, index)
            + ports_at(tail, index)).push(port));
    }
}

/// Every CH348 tty among the probed nodes, by physical UART index.
///
/// Nodes whose vendor is not WCH are skipped, and so are nodes that are WCH but
/// refuse the ioctl, since they may be a different driver generation.
pub fn list_ch348_ports(probes: &Vec<Probe>) -> (ports: Vec<Ch348Port>)
    ensures
        is_sorted_by_index(ports_view(ports@), ports_found(probes@)),
{
    let mut ports: Vec<Ch348Port> = Vec::new();
    assert(ports_view(ports@) =~= Seq::empty());
    assert(ports_found(probes@.take(0)) =~= Seq::empty());
    for i in 0..probes.len()
        invariant
            is_sorted_by_index(ports_view(ports@), ports_found(probes@.take(i as int))),
    {
        let probe = &probes[i];
        assert(probes@.take(i + 1).drop_last() =~= probes@.take(i as int));
        assert(probes@.take(i + 1).last() == *probe);
        if is_ch348(probe.vendor) {
            if let Some(uart_index) = probe.uart_index {
                let ghost before = ports_view(ports@);
                let ghost found = ports_found(probes@.take(i as int));
                let mut at: usize = ports.len();
                while at > 0 && ports[at - 1].uart_index > uart_index
                    invariant
                        at <= ports@.len(),
                        forall|k: int|
                            at <= k < ports@.len() ==> (#[trigger] ports@[k]).uart_index > uart_index,
                    decreases at,
                {
                    at = at - 1;
                }
                let port = Ch348Port { path: probe.path.clone(), uart_index };
                proof {
                    assert forall|k: int| 0 <= k < at implies (#[trigger] before[k]).uart_index
                        <= uart_index by {
                        assert(before[k].uart_index <= before[at - 1].uart_index);
                    }
                    assert forall|k: int| at <= k < before.len() implies (
                    #[trigger] before[k]).uart_index > uart_index by {
                        assert(ports@[k].uart_index > uart_index);
                    }
                    assert forall|index: u16| #[trigger]
                        ports_at(before.insert(at as int, port@), index) == ports_at(
                        found.push(port@),
                        index,
                    ) by {
                        lemma_ports_at_insert(before, at as int, port@, index);
                        lemma_ports_at_push(before, port@, index);
                        lemma_ports_at_push(found, port@, index);
                        assert(ports_at(before, index) == ports_at(found, index));
                    }
                    assert(ports_view(ports@.insert(at as int, port)) =~= before.insert(
                        at as int,
                        port@,
                    ));
                }
                ports.insert(at, port);
            }
        }
    }
    assert(probes@.take(probes@.len() as int) =~= probes@);
    ports
}

/// The device node for the S.BUS UART (physical index 6).
pub fn find_sbus_port(ports: &Vec<Ch348Port>) -> (found: Result<String, DiscoveryError>)
    ensures
        port_chosen(ports_view(ports@), SBUS_UART_INDEX) == (match found {
            Ok(path) => Ok::<Seq<char>, DiscoveryErrorModel>(path@),
            Err(e) => Err(e@),
        }),
{
    find_uart(ports, SBUS_UART_INDEX)
}

/// The device node for a given physical UART index.
pub fn find_uart(ports: &Vec<Ch348Port>, index: u16) -> (found: Result<String, DiscoveryError>)
    ensures
        port_chosen(ports_view(ports@), index) == (match found {
            Ok(path) => Ok::<Seq<char>, DiscoveryErrorModel>(path@),
            Err(e) => Err(e@),
        }),
{
    if ports.len() == 0 {
        return Err(DiscoveryError::NoPorts);
    }
    let ghost all = ports_view(ports@);
    let mut matching: Vec<usize> = Vec::new();
    let mut available: Vec<u16> = Vec::new();
    assert(all.take(0) =~= Seq::empty());
    assert(ports_at(all.take(0), index) =~= Seq::empty()) by {
        reveal(Seq::filter);
    }
    for i in 0..ports.len()
        invariant
            all == ports_view(ports@),
            available@ =~= all.take(i as int).map_values(|p: PortModel| p.uart_index),
            matching@.len() == ports_at(all.take(i as int), index).len(),
            forall|k: int| 0 <= k < matching@.len() ==> #[trigger] matching@[k] < ports@.len(),
            forall|k: int|
                0 <= k < matching@.len() ==> all[#[trigger] matching@[k] as int] == ports_at(
                    all.take(i as int),
                    index,
                )[k],
    {
        proof {
            assert(all.take(i + 1) =~= all.take(i as int).push(all[i as int]));
            lemma_ports_at_push(all.take(i as int), all[i as int], index);
        }
        available.push(ports[i].uart_index);
        if ports[i].uart_index == index {
            matching.push(i);
        }
    }
    assert(all.take(all.len() as int) =~= all);
    if matching.len() == 0 {
        return Err(DiscoveryError::NoSuchUart { index, available });
    }
    let first: &Ch348Port = &ports[matching[0]];
    if matching.len() > 1 {
        let second: &Ch348Port = &ports[matching[1]];
        assert(all[matching@[0] as int] == first@);
        assert(all[matching@[1] as int] == second@);
        return Err(
            DiscoveryError::Ambiguous {
                index,
                first: first.path.clone(),
                second: second.path.clone(),
            },
        );
    }
    assert(all[matching@[0] as int] == first@);
    Ok(first.path.clone())
}

/// There is only one way to sort ports by index.
pub proof fn law_sorted_ports_are_determined(
    a: Seq<PortModel>,
    b: Seq<PortModel>,
    ports: Seq<PortModel>,
)
    requires
        is_sorted_by_index(a, ports),
        is_sorted_by_index(b, ports),
    ensures
        a == b,
    decreases a.len(),
{
    assert forall|index: u16| #[trigger] ports_at(a, index) == ports_at(b, index) by {
        assert(ports_at(a, index) == ports_at(ports, index));
        assert(ports_at(b, index) == ports_at(ports, index));
    }
    if a.len() == 0 {
        if b.len() > 0 {
            reveal(Seq::filter);
            assert(ports_at(b, b.last().uart_index).last() == b.last());
            assert(ports_at(a, b.last().uart_index).len() == 0);
        }
    } else {
        lemma_last_port(a, b);
        lemma_last_port(b, a);
        let (x, y) = (a.drop_last(), b.drop_last());
        assert(a =~= x.push(a.last()));
        assert(b =~= y.push(b.last()));
        assert forall|index: u16| #[trigger] ports_at(x, index) == ports_at(y, index) by {
            lemma_ports_at_push(x, a.last(), index);
            lemma_ports_at_push(y, b.last(), index);
            assert(ports_at(a, index) == ports_at(b, index));
            if a.last().uart_index == index {
                assert(ports_at(x, index) =~= ports_at(a, index).drop_last());
                assert(ports_at(y, index) =~= ports_at(b, index).drop_last());
            }
        }
        assert(is_sorted_by_index(x, x)) by {
            assert(forall|i: int| 0 <= i < x.len() ==> x[i] == #[trigger] a[i]);
        }
        assert(is_sorted_by_index(y, x)) by {
            assert(forall|i: int| 0 <= i < y.len() ==> y[i] == #[trigger] b[i]);
        }
        law_sorted_ports_are_determined(x, y, x);
    }
}

proof fn lemma_last_port(a: Seq<PortModel>, b: Seq<PortModel>)
    requires
        a.len() > 0,
        forall|i: int, j: int|
            0 <= i <= j < b.len() ==> (#[trigger] b[i]).uart_index <= (
            #[trigger] b[j]).uart_index,
        forall|index: u16| #[trigger] ports_at(a, index) == ports_at(b, index),
    ensures
        b.len() > 0,
        a.last().uart_index <= b.last().uart_index,
        a.last().uart_index == b.last().uart_index ==> a.last() == b.last(),
{
    let index = a.last().uart_index;
    let pred = |p: PortModel| p.uart_index == index;
    reveal(Seq::filter);
    assert(ports_at(a, index).last() == a.last());
    assert(ports_at(b, index).contains(a.last()));
    b.lemma_filter_contains_rev(pred, a.last());
    let k = choose|k: int| 0 <= k < b.len() && b[k] == a.last();
    assert(b[k].uart_index <= b[b.len() - 1].uart_index);
    if b.last().uart_index == index {
        assert(ports_at(b, index).last() == b.last());
    }
}

/// The wrong UART is never opened: a port is chosen among the probed nodes
/// exactly where one CH348 node, and only one, claims the UART, and it is that
/// node.
pub proof fn law_only_an_unambiguous_port_is_chosen(
    probes: Seq<Probe>,
    sorted: Seq<PortModel>,
    index: u16,
    path: Seq<char>,
)
    requires
        is_sorted_by_index(sorted, ports_found(probes)),
    ensures
        port_chosen(sorted, index) == Ok::<Seq<char>, DiscoveryErrorModel>(path) <==> ports_at(
            ports_found(probes),
            index,
        ) == seq![PortModel { path, uart_index: index }],
{
    let matching = ports_at(sorted, index);
    assert(matching == ports_at(ports_found(probes), index));
    sorted.lemma_filter_len(|p: PortModel| p.uart_index == index);
    if matching.len() == 1 {
        sorted.lemma_filter_pred(|p: PortModel| p.uart_index == index, 0);
        assert(matching =~= seq![PortModel { path: matching[0].path, uart_index: index }]);
    }
    if matching == seq![PortModel { path, uart_index: index }] {
        assert(matching[0].path == path);
    }
}

/// Whether the bytes of a file name begin with an ASCII prefix.
pub open spec fn begins_with(name: Seq<u8>, prefix: Seq<char>) -> bool {
    &&& name.len() >= prefix.len()
    &&& forall|i: int| 0 <= i < prefix.len() ==> #[trigger] name[i] == prefix[i] as u8
}

/// Whether a file name in `/dev` is that of a USB serial node.
pub open spec fn is_candidate(name: Seq<u8>) -> bool {
    begins_with(name, "ttyCH9344USB"@) || begins_with(name, "ttyUSB"@)
}

/// The order of file names: byte by byte, a prefix before what it begins.
pub open spec fn name_le(a: Seq<u8>, b: Seq<u8>) -> bool
    decreases a.len(),
{
    if a.len() == 0 {
        true
    } else if b.len() == 0 {
        false
    } else {
        a[0] < b[0] || a[0] == b[0] && name_le(a.drop_first(), b.drop_first())
    }
}

/// What a list of file names says.
pub open spec fn names_view(names: Seq<Vec<u8>>) -> Seq<Seq<u8>> {
    names.map_values(|n: Vec<u8>| n@)
}

/// Whether file names are in order.
pub open spec fn in_order(names: Seq<Seq<u8>>) -> bool {
    forall|i: int, j: int|
        0 <= i <= j < names.len() ==> name_le(#[trigger] names[i], #[trigger] names[j])
}

fn name_begins_with(name: &Vec<u8>, prefix: &str) -> (yes: bool)
    requires
        prefix.is_ascii(),
    ensures
        yes == begins_with(name@, prefix@),
{
    let length: usize = prefix.unicode_len();
    if name.len() < length {
        return false;
    }
    for i in 0..length
        invariant
            prefix.is_ascii(),
            length == prefix@.len(),
            length <= name@.len(),
            forall|k: int| 0 <= k < i ==> #[trigger] name@[k] == prefix@[k] as u8,
    {
        if name[i] != prefix.get_ascii(i) {
            return false;
        }
    }
    true
}

fn name_at_most(a: &Vec<u8>, b: &Vec<u8>) -> (yes: bool)
    ensures
        yes == name_le(a@, b@),
{
    let mut i: usize = 0;
    assert(a@.skip(0) =~= a@);
    assert(b@.skip(0) =~= b@);
    while i < a.len()
        invariant
            i <= a@.len(),
            i <= b@.len(),
            name_le(a@, b@) == name_le(a@.skip(i as int), b@.skip(i as int)),
        decreases a@.len() - i,
    {
        if i >= b.len() {
            return false;
        }
        assert(a@.skip(i as int).drop_first() =~= a@.skip(i + 1));
        assert(b@.skip(i as int).drop_first() =~= b@.skip(i + 1));
        if a[i] != b[i] {
            return a[i] < b[i];
        }
        i = i + 1;
    }
    true
}

proof fn lemma_name_le_total(a: Seq<u8>, b: Seq<u8>)
    ensures
        name_le(a, b) || name_le(b, a),
    decreases a.len(),
{
    if a.len() > 0 && b.len() > 0 {
        lemma_name_le_total(a.drop_first(), b.drop_first());
    }
}

proof fn lemma_name_le_transitive(a: Seq<u8>, b: Seq<u8>, c: Seq<u8>)
    requires
        name_le(a, b),
        name_le(b, c),
    ensures
        name_le(a, c),
    decreases a.len(),
{
    if a.len() > 0 && b.len() > 0 && c.len() > 0 && a[0] == b[0] && b[0] == c[0] {
        lemma_name_le_transitive(a.drop_first(), b.drop_first(), c.drop_first());
    }
}

/// The USB serial nodes among the file names of `/dev`, in order.
pub fn candidate_nodes(names: Vec<Vec<u8>>) -> (nodes: Vec<Vec<u8>>)
    ensures
        in_order(names_view(nodes@)),
        names_view(nodes@).to_multiset() == names_view(names@).filter(
            |n: Seq<u8>| is_candidate(n),
        ).to_multiset(),
{
    broadcast use vstd::seq_lib::group_to_multiset_ensures;

    let ghost all = names_view(names@);
    let ghost pred = |n: Seq<u8>| is_candidate(n);
    let mut rest = names;
    let mut nodes: Vec<Vec<u8>> = Vec::new();
    proof {
        reveal_strlit("ttyCH9344USB");
        reveal_strlit("ttyUSB");
        assert(names_view(nodes@) =~= Seq::empty());
        assert(all.filter(pred).to_multiset() =~= all.filter(pred).to_multiset().add(
            names_view(nodes@).to_multiset(),
        ));
    }
    while rest.len() > 0
        invariant
            pred == |n: Seq<u8>| is_candidate(n),
            in_order(names_view(nodes@)),
            names_view(rest@).filter(pred).to_multiset().add(names_view(nodes@).to_multiset())
                == all.filter(pred).to_multiset(),
            "ttyCH9344USB".is_ascii(),
            "ttyUSB".is_ascii(),
        decreases rest@.len(),
    {
        let ghost unseen = names_view(rest@);
        let ghost sorted = names_view(nodes@);
        let name: Vec<u8> = rest.pop().unwrap();
        let ghost left = names_view(rest@);
        proof {
            reveal(Seq::filter);
            assert(unseen.drop_last() =~= left);
            assert(unseen.last() == name@);
            assert(unseen.filter(pred) == if is_candidate(name@) {
                left.filter(pred).push(name@)
            } else {
                left.filter(pred)
            });
        }
        if name_begins_with(&name, "ttyCH9344USB") || name_begins_with(&name, "ttyUSB") {
            let mut at: usize = nodes.len();
            while at > 0 && !name_at_most(&nodes[at - 1], &name)
                invariant
                    at <= nodes@.len(),
                    sorted == names_view(nodes@),
                    in_order(sorted),
                    forall|k: int| at <= k < sorted.len() ==> name_le(name@, #[trigger] sorted[k]),
                decreases at,
            {
                proof {
                    lemma_name_le_total(name@, sorted[at - 1]);
                }
                at = at - 1;
            }
            proof {
                assert forall|k: int| 0 <= k < at implies name_le(#[trigger] sorted[k], name@) by {
                    assert(name_le(sorted[k], sorted[at - 1]));
                    lemma_name_le_transitive(sorted[k], sorted[at - 1], name@);
                }
                lemma_name_le_total(name@, name@);
                assert(names_view(nodes@.insert(at as int, name)) =~= sorted.insert(
                    at as int,
                    name@,
                ));
                vstd::seq_lib::to_multiset_insert(sorted, at as int, name@);
                vstd::seq_lib::to_multiset_build(left.filter(pred), name@);
                assert(left.filter(pred).to_multiset().insert(name@).add(sorted.to_multiset())
                    =~= left.filter(pred).to_multiset().add(sorted.to_multiset().insert(name@)));
            }
            nodes.insert(at, name);
            assert(names_view(nodes@).to_multiset() == sorted.to_multiset().insert(unseen.last()));
            assert(left.filter(pred).to_multiset().insert(unseen.last()) == unseen.filter(
                pred,
            ).to_multiset());
        } else {
            assert(left.filter(pred) == unseen.filter(pred));
        }
    }
    proof {
        reveal(Seq::filter);
        assert(names_view(rest@) =~= Seq::empty());
        assert(names_view(rest@).filter(pred).to_multiset().add(names_view(nodes@).to_multiset())
            =~= names_view(nodes@).to_multiset());
    }
    nodes
}

/// File names have only one order.
pub proof fn law_name_order_is_determined(a: Seq<Seq<u8>>, b: Seq<Seq<u8>>)
    requires
        in_order(a),
        in_order(b),
        a.to_multiset() == b.to_multiset(),
    ensures
        a == b,
{
    let leq = |x: Seq<u8>, y: Seq<u8>| name_le(x, y);
    assert forall|x: Seq<u8>| #[trigger] leq(x, x) by {
        lemma_name_le_total(x, x);
    }
    assert forall|x: Seq<u8>, y: Seq<u8>| #[trigger] leq(x, y) || #[trigger] leq(y, x) by {
        lemma_name_le_total(x, y);
    }
    assert forall|x: Seq<u8>, y: Seq<u8>| #[trigger] leq(x, y) && #[trigger] leq(y, x) implies x
        == y by {
        lemma_name_le_antisymmetric(x, y);
    }
    assert forall|x: Seq<u8>, y: Seq<u8>, z: Seq<u8>| #[trigger]
        leq(x, y) && #[trigger] leq(y, z) implies leq(x, z) by {
        lemma_name_le_transitive(x, y, z);
    }
    vstd::seq_lib::lemma_sorted_unique(a, b, leq);
}

proof fn lemma_name_le_antisymmetric(a: Seq<u8>, b: Seq<u8>)
    requires
        name_le(a, b),
        name_le(b, a),
    ensures
        a == b,
    decreases a.len(),
{
    if a.len() > 0 && b.len() > 0 {
        lemma_name_le_antisymmetric(a.drop_first(), b.drop_first());
        assert(a =~= seq![a[0]] + a.drop_first());
        assert(b =~= seq![b[0]] + b.drop_first());
    } else {
        assert(a =~= b);
    }
}

/// What to do with a directory on the way up from a tty's device directory.
#[derive(Debug, Clone, Copy, PartialEq, Eq, Structural)]
pub enum VendorStep {
    /// Read the vendor ID here.
    Read,
    /// Go on with the parent directory.
    Ascend,
    /// Give up.
    Stop,
}

/// What to do with the directory `level` steps above a tty's device directory,
/// where `present` says whether it holds a vendor ID.
pub fn vendor_step(level: usize, present: bool) -> (step: VendorStep)
    ensures
        step == if level >= VENDOR_SEARCH_DEPTH {
            VendorStep::Stop
        } else if present {
            VendorStep::Read
        } else if level + 1 < VENDOR_SEARCH_DEPTH {
            VendorStep::Ascend
        } else {
            VendorStep::Stop
        },
{
    if level >= VENDOR_SEARCH_DEPTH {
        VendorStep::Stop
    } else if present {
        VendorStep::Read
    } else if level < VENDOR_SEARCH_DEPTH - 1 {
        VendorStep::Ascend
    } else {
        VendorStep::Stop
    }
}

/// Unicode white space.
pub open spec fn is_white_space(c: char) -> bool {
    ||| '\u{9}' <= c <= '\u{d}'
    ||| c == '\u{20}'
    ||| c == '\u{85}'
    ||| c == '\u{a0}'
    ||| c == '\u{1680}'
    ||| '\u{2000}' <= c <= '\u{200a}'
    ||| c == '\u{2028}'
    ||| c == '\u{2029}'
    ||| c == '\u{202f}'
    ||| c == '\u{205f}'
    ||| c == '\u{3000}'
}

/// Text without white space at its start.
pub open spec fn trimmed_start(text: Seq<char>) -> Seq<char>
    decreases text.len(),
{
    if text.len() > 0 && is_white_space(text[0]) {
        trimmed_start(text.drop_first())
    } else {
        text
    }
}

/// Text without white space at its end.
pub open spec fn trimmed_end(text: Seq<char>) -> Seq<char>
    decreases text.len(),
{
    if text.len() > 0 && is_white_space(text.last()) {
        trimmed_end(text.drop_last())
    } else {
        text
    }
}

/// The value of a hexadecimal digit of either case.
pub open spec fn hex_digit_value(c: char) -> Option<nat> {
    if '0' <= c <= '9' {
        Some((c as int - '0' as int) as nat)
    } else if 'a' <= c <= 'f' {
        Some((c as int - 'a' as int + 10) as nat)
    } else if 'A' <= c <= 'F' {
        Some((c as int - 'A' as int + 10) as nat)
    } else {
        None
    }
}

/// The value of hexadecimal digits, if that is what they all are.
pub open spec fn hex_value(digits: Seq<char>) -> Option<nat>
    decreases digits.len(),
{
    if digits.len() == 0 {
        Some(0)
    } else {
        match (hex_value(digits.drop_last()), hex_digit_value(digits.last())) {
            (Some(high), Some(low)) => Some(16 * high + low),
            _ => None,
        }
    }
}

/// The vendor ID that the text of an `idVendor` file gives: hexadecimal digits
/// that fit in 16 bits, with an optional plus sign before them and white space
/// around.
pub open spec fn vendor_id_of(text: Seq<char>) -> Option<u16> {
    let number = trimmed_end(trimmed_start(text));
    let digits = if number.len() > 0 && number[0] == '+' {
        number.drop_first()
    } else {
        number
    };
    match hex_value(digits) {
        Some(value) => if digits.len() > 0 && value <= u16::MAX {
            Some(value as u16)
        } else {
            None
        },
        None => None,
    }
}

fn white_space(c: char) -> (yes: bool)
    ensures
        yes == is_white_space(c),
{
    ('\u{9}' <= c && c <= '\u{d}') || c == '\u{20}' || c == '\u{85}' || c == '\u{a0}' || c
        == '\u{1680}' || ('\u{2000}' <= c && c <= '\u{200a}') || c == '\u{2028}' || c == '\u{2029}'
        || c == '\u{202f}' || c == '\u{205f}' || c == '\u{3000}'
}

fn hex_digit(c: char) -> (value: Option<u32>)
    ensures
        hex_digit_value(c) == (match value {
            Some(v) => Some(v as nat),
            None => None::<nat>,
        }),
        value matches Some(v) ==> v < 16,
{
    if '0' <= c && c <= '9' {
        Some(c as u32 - '0' as u32)
    } else if 'a' <= c && c <= 'f' {
        Some(c as u32 - 'a' as u32 + 10)
    } else if 'A' <= c && c <= 'F' {
        Some(c as u32 - 'A' as u32 + 10)
    } else {
        None
    }
}

proof fn lemma_hex_value_prefix(digits: Seq<char>, n: int)
    requires
        0 <= n <= digits.len(),
        hex_value(digits) is Some,
    ensures
        hex_value(digits.take(n)) is Some,
        hex_value(digits.take(n))->0 <= hex_value(digits)->0,
    decreases digits.len(),
{
    if n == digits.len() {
        assert(digits.take(n) =~= digits);
    } else {
        lemma_hex_value_prefix(digits.drop_last(), n);
        assert(digits.drop_last().take(n) =~= digits.take(n));
    }
}

/// The vendor ID in the text of an `idVendor` file.
pub fn parse_vendor_id(text: &str) -> (vendor: Option<u16>)
    ensures
        vendor == vendor_id_of(text@),
{
    let mut start: usize = 0;
    let mut end: usize = text.unicode_len();
    assert(text@.subrange(0, end as int) =~= text@);
    while start < end && white_space(text.get_char(start))
        invariant
            start <= end == text@.len(),
            trimmed_start(text@.subrange(start as int, end as int)) == trimmed_start(text@),
        decreases end - start,
    {
        assert(text@.subrange(start as int, end as int).drop_first() =~= text@.subrange(
            start + 1,
            end as int,
        ));
        start = start + 1;
    }
    while start < end && white_space(text.get_char(end - 1))
        invariant
            start <= end <= text@.len(),
            trimmed_end(text@.subrange(start as int, end as int)) == trimmed_end(
                trimmed_start(text@),
            ),
        decreases end - start,
    {
        assert(text@.subrange(start as int, end as int).drop_last() =~= text@.subrange(
            start as int,
            end - 1,
        ));
        end = end - 1;
    }
    let ghost number = text@.subrange(start as int, end as int);
    assert(number == trimmed_end(trimmed_start(text@)));
    if start < end && text.get_char(start) == '+' {
        assert(number.drop_first() =~= text@.subrange(start + 1, end as int));
        start = start + 1;
    }
    let ghost digits = text@.subrange(start as int, end as int);
    if start == end {
        return None;
    }
    let mut value: u32 = 0;
    let mut i: usize = start;
    assert(digits.take(0) =~= Seq::empty());
    while i < end
        invariant
            start <= i <= end <= text@.len(),
            digits == text@.subrange(start as int, end as int),
            hex_value(digits.take(i - start)) == Some(value as nat),
            value <= u16::MAX,
            vendor_id_of(text@) == (match hex_value(digits) {
                Some(v) => if digits.len() > 0 && v <= u16::MAX {
                    Some(v as u16)
                } else {
                    None
                },
                None => None,
            }),
        decreases end - i,
    {
        let ghost more = digits.take(i + 1 - start);
        proof {
            assert(more.drop_last() =~= digits.take(i - start));
            assert(more.last() == text@[i as int]);
            if hex_value(digits) is Some {
                lemma_hex_value_prefix(digits, i + 1 - start);
            }
        }
        match hex_digit(text.get_char(i)) {
            Some(digit) => {
                value = 16 * value + digit;
                if value > u16::MAX as u32 {
                    return None;
                }
            },
            None => return None,
        }
        i = i + 1;
    }
    assert(digits.take(end - start) =~= digits);
    Some(value as u16)
}

/// The words for a [`DiscoveryError`].
pub open spec fn discovery_text(error: DiscoveryErrorModel) -> Seq<char> {
    match error {
        DiscoveryErrorModel::NoPorts =>
            "no CH348 (VID 0x1a86) tty found; is the ch9344 driver loaded?"@,
        DiscoveryErrorModel::NoSuchUart { index, available } => "no CH348 tty with UART index "@
            + crate::text::decimal(index as nat) + "; found indices ["@ + crate::text::joined(
            available.map_values(|i: u16| crate::text::decimal(i as nat)),
            ", "@,
        ) + "]"@,
        DiscoveryErrorModel::Ambiguous { index, first, second } => "UART index "@
            + crate::text::decimal(index as nat) + " is ambiguous: "@ + first + " and "@ + second
            + " both claim it; connect a single board or pass an explicit port"@,
    }
}

impl DiscoveryError {
    /// The error in words.
    pub fn message(&self) -> (text: String)
        ensures
            text@ == discovery_text(self@),
    {
        match self {
            DiscoveryError::NoPorts => String::from_str(
                "no CH348 (VID 0x1a86) tty found; is the ch9344 driver loaded?",
            ),
            DiscoveryError::NoSuchUart { index, available } => {
                let ghost numbers = available@.map_values(|i: u16| crate::text::decimal(i as nat));
                let mut parts: Vec<String> = Vec::new();
                assert(crate::text::texts(parts@) =~= numbers.take(0));
                for i in 0..available.len()
                    invariant
                        numbers == available@.map_values(
                            |i: u16| crate::text::decimal(i as nat),
                        ),
                        crate::text::texts(parts@) == numbers.take(i as int),
                {
                    let part = decimal_text(available[i] as u64);
                    proof {
                        crate::text::lemma_texts_push(parts@, part);
                        assert(numbers.take(i + 1) =~= numbers.take(i as int).push(
                            numbers[i as int],
                        ));
                    }
                    parts.push(part);
                }
                assert(numbers.take(numbers.len() as int) =~= numbers);
                let mut text = String::from_str("no CH348 tty with UART index ");
                push_decimal(&mut text, *index as u64);
                text.append("; found indices [");
                text.append(join(&parts, ", ").as_str());
                text.append("]");
                text
            },
            DiscoveryError::Ambiguous { index, first, second } => {
                let mut text = String::from_str("UART index ");
                push_decimal(&mut text, *index as u64);
                text.append(" is ambiguous: ");
                text.append(first.as_str());
                text.append(" and ");
                text.append(second.as_str());
                text.append(" both claim it; connect a single board or pass an explicit port");
                text
            },
        }
    }
}

proof fn lemma_filter_only(probes: Seq<Probe>, pred: spec_fn(Probe) -> bool, i: int)
    requires
        0 <= i < probes.len(),
        pred(probes[i]),
        forall|j: int| 0 <= j < probes.len() && pred(#[trigger] probes[j]) ==> j == i,
    ensures
        probes.filter(pred) == seq![probes[i]],
    decreases probes.len(),
{
    reveal(Seq::filter);
    let init = probes.drop_last();
    if i == probes.len() - 1 {
        assert forall|j: int| 0 <= j < init.len() implies !pred(#[trigger] init[j]) by {
            assert(init[j] == probes[j]);
        }
        init.lemma_all_neg_filter_empty(pred);
        assert(init.filter(pred).push(probes[i]) =~= seq![probes[i]]);
    } else {
        assert(forall|j: int| 0 <= j < init.len() ==> init[j] == #[trigger] probes[j]);
        assert(!pred(probes[probes.len() - 1]));
        assert forall|j: int| 0 <= j < init.len() && pred(#[trigger] init[j]) implies j == i by {
            assert(init[j] == probes[j]);
        }
        lemma_filter_only(init, pred, i);
    }
}

proof fn lemma_filter_one(probes: Seq<Probe>, pred: spec_fn(Probe) -> bool) -> (i: int)
    requires
        probes.filter(pred).len() == 1,
    ensures
        0 <= i < probes.len(),
        pred(probes[i]),
        forall|j: int| 0 <= j < probes.len() && pred(#[trigger] probes[j]) ==> j == i,
    decreases probes.len(),
{
    reveal(Seq::filter);
    let init = probes.drop_last();
    assert(forall|j: int| 0 <= j < init.len() ==> init[j] == #[trigger] probes[j]);
    if pred(probes.last()) {
        assert forall|j: int| 0 <= j < init.len() implies !pred(#[trigger] probes[j]) by {
            if pred(probes[j]) {
                assert(init[j] == probes[j]);
                init.lemma_filter_contains(pred, j);
            }
        }
        probes.len() - 1
    } else {
        lemma_filter_one(init, pred)
    }
}

proof fn lemma_ports_found_at(probes: Seq<Probe>, index: u16)
    ensures
        ports_at(ports_found(probes), index) == probes.filter(
            |p: Probe| p.vendor == Some(0x1A86u16) && p.uart_index == Some(index),
        ).map_values(|p: Probe| PortModel { path: p.path@, uart_index: index }),
    decreases probes.len(),
{
    let pred = |p: Probe| p.vendor == Some(0x1A86u16) && p.uart_index == Some(index);
    let port = |p: Probe| PortModel { path: p.path@, uart_index: index };
    reveal(Seq::filter);
    if probes.len() == 0 {
        assert(ports_at(ports_found(probes), index) =~= probes.filter(pred).map_values(port));
    } else {
        let init = probes.drop_last();
        let last = probes.last();
        lemma_ports_found_at(init, index);
        if let Some(found) = last.port() {
            lemma_ports_at_push(ports_found(init), found, index);
        }
        if pred(last) {
            assert(init.filter(pred).push(last).map_values(port) =~= init.filter(pred).map_values(
                port,
            ).push(port(last)));
        }
    }
}

/// The ports listed for a UART are the probed nodes of vendor `0x1A86` that
/// answered that very index, each under its own path and once for each such
/// node, in the order of the nodes; and the whole list ascends by index.
pub proof fn law_each_node_is_listed_under_its_answer(
    probes: Seq<Probe>,
    sorted: Seq<PortModel>,
    index: u16,
)
    requires
        is_sorted_by_index(sorted, ports_found(probes)),
    ensures
        sorted.filter(|p: PortModel| p.uart_index == index) == probes.filter(
            |p: Probe| p.vendor == Some(0x1A86u16) && p.uart_index == Some(index),
        ).map_values(|p: Probe| PortModel { path: p.path@, uart_index: index }),
        forall|i: int, j: int|
            0 <= i <= j < sorted.len() ==> (#[trigger] sorted[i]).uart_index <= (
            #[trigger] sorted[j]).uart_index,
{
    lemma_ports_found_at(probes, index);
    assert(ports_at(sorted, index) == ports_at(ports_found(probes), index));
}

/// A port is listed with a path and an index exactly where some probed node has
/// that path, is of vendor `0x1A86` and answered that index.
pub proof fn law_listed_ports_are_answers(
    probes: Seq<Probe>,
    sorted: Seq<PortModel>,
    path: Seq<char>,
    index: u16,
)
    requires
        is_sorted_by_index(sorted, ports_found(probes)),
    ensures
        sorted.contains(PortModel { path, uart_index: index }) <==> exists|i: int|
            0 <= i < probes.len() && (#[trigger] probes[i]).path@ == path && probes[i].vendor == Some(
                0x1A86u16,
            ) && probes[i].uart_index == Some(index),
{
    law_each_node_is_listed_under_its_answer(probes, sorted, index);
    let port = PortModel { path, uart_index: index };
    let listed = |p: PortModel| p.uart_index == index;
    let claims = |p: Probe| p.vendor == Some(0x1A86u16) && p.uart_index == Some(index);
    let claimants = probes.filter(claims);
    if sorted.contains(port) {
        let k = choose|k: int| 0 <= k < sorted.len() && sorted[k] == port;
        sorted.lemma_filter_contains(listed, k);
        let m = choose|m: int|
            0 <= m < sorted.filter(listed).len() && sorted.filter(listed)[m] == port;
        assert(claimants[m].path@ == path);
        probes.lemma_filter_pred(claims, m);
        assert(claimants.contains(claimants[m]));
        probes.lemma_filter_contains_rev(claims, claimants[m]);
        let i = choose|i: int| 0 <= i < probes.len() && probes[i] == claimants[m];
        assert(probes[i].path@ == path);
    }
    if exists|i: int|
        0 <= i < probes.len() && (#[trigger] probes[i]).path@ == path && probes[i].vendor == Some(
            0x1A86u16,
        ) && probes[i].uart_index == Some(index) {
        let i = choose|i: int|
            0 <= i < probes.len() && (#[trigger] probes[i]).path@ == path && probes[i].vendor
                == Some(0x1A86u16) && probes[i].uart_index == Some(index);
        probes.lemma_filter_contains(claims, i);
        let m = choose|m: int| 0 <= m < claimants.len() && claimants[m] == probes[i];
        assert(sorted.filter(listed)[m] == port);
        assert(sorted.filter(listed).contains(port));
        sorted.lemma_filter_contains_rev(listed, port);
    }
}

/// A port is chosen for a UART exactly where one probed node, and only one, is
/// of vendor `0x1A86` and answered that UART's index, and the port is the path
/// of that node.
pub proof fn law_the_chosen_node_alone_answered(
    probes: Seq<Probe>,
    sorted: Seq<PortModel>,
    index: u16,
    path: Seq<char>,
)
    requires
        is_sorted_by_index(sorted, ports_found(probes)),
    ensures
        port_chosen(sorted, index) == Ok::<Seq<char>, DiscoveryErrorModel>(path) <==> exists|i: int|
            {
                &&& 0 <= i < probes.len()
                &&& (#[trigger] probes[i]).path@ == path
                &&& probes[i].vendor == Some(0x1A86u16)
                &&& probes[i].uart_index == Some(index)
                &&& forall|j: int|
                    0 <= j < probes.len() && (#[trigger] probes[j]).vendor == Some(0x1A86u16)
                        && probes[j].uart_index == Some(index) ==> j == i
            },
{
    law_each_node_is_listed_under_its_answer(probes, sorted, index);
    let claims = |p: Probe| p.vendor == Some(0x1A86u16) && p.uart_index == Some(index);
    let matching = ports_at(sorted, index);
    sorted.lemma_filter_len(|p: PortModel| p.uart_index == index);
    if port_chosen(sorted, index) == Ok::<Seq<char>, DiscoveryErrorModel>(path) {
        assert(probes.filter(claims).len() == 1);
        let i = lemma_filter_one(probes, claims);
        lemma_filter_only(probes, claims, i);
        assert(probes[i].path@ == path);
        assert forall|j: int|
            0 <= j < probes.len() && (#[trigger] probes[j]).vendor == Some(0x1A86u16)
                && probes[j].uart_index == Some(index) implies j == i by {
            assert(claims(probes[j]));
        }
    }
    if exists|i: int|
        {
            &&& 0 <= i < probes.len()
            &&& (#[trigger] probes[i]).path@ == path
            &&& probes[i].vendor == Some(0x1A86u16)
            &&& probes[i].uart_index == Some(index)
            &&& forall|j: int|
                0 <= j < probes.len() && (#[trigger] probes[j]).vendor == Some(0x1A86u16)
                    && probes[j].uart_index == Some(index) ==> j == i
        } {
        let i = choose|i: int|
            {
                &&& 0 <= i < probes.len()
                &&& (#[trigger] probes[i]).path@ == path
                &&& probes[i].vendor == Some(0x1A86u16)
                &&& probes[i].uart_index == Some(index)
                &&& forall|j: int|
                    0 <= j < probes.len() && (#[trigger] probes[j]).vendor == Some(0x1A86u16)
                        && probes[j].uart_index == Some(index) ==> j == i
            };
        lemma_filter_only(probes, claims, i);
        assert(matching[0].path == path);
    }
}

proof fn lemma_no_ports_at(ports: Seq<PortModel>, index: u16)
    requires
        forall|k: int| 0 <= k < ports.len() ==> (#[trigger] ports[k]).uart_index != index,
    ensures
        ports_at(ports, index).len() == 0,
{
    let pred = |p: PortModel| p.uart_index == index;
    assert forall|k: int| 0 <= k < ports.len() implies !pred(#[trigger] ports[k]) by {}
    ports.lemma_all_neg_filter_empty(pred);
}

proof fn lemma_first_port_at(ports: Seq<PortModel>, index: u16, i: int)
    requires
        0 <= i < ports.len(),
        ports[i].uart_index == index,
        forall|k: int| 0 <= k < i ==> (#[trigger] ports[k]).uart_index != index,
    ensures
        ports_at(ports, index).len() > 0,
        ports_at(ports, index)[0] == ports[i],
    decreases ports.len(),
{
    let init = ports.drop_last();
    assert(ports =~= init.push(ports.last()));
    lemma_ports_at_push(init, ports.last(), index);
    assert(forall|k: int| 0 <= k < init.len() ==> init[k] == #[trigger] ports[k]);
    if i == ports.len() - 1 {
        lemma_no_ports_at(init, index);
    } else {
        lemma_first_port_at(init, index, i);
    }
}

proof fn lemma_second_port_at(ports: Seq<PortModel>, index: u16, i: int, j: int)
    requires
        0 <= i < j < ports.len(),
        ports[i].uart_index == index,
        ports[j].uart_index == index,
        forall|k: int| 0 <= k < j && k != i ==> (#[trigger] ports[k]).uart_index != index,
    ensures
        ports_at(ports, index).len() > 1,
        ports_at(ports, index)[1] == ports[j],
    decreases ports.len(),
{
    let init = ports.drop_last();
    assert(ports =~= init.push(ports.last()));
    lemma_ports_at_push(init, ports.last(), index);
    assert(forall|k: int| 0 <= k < init.len() ==> init[k] == #[trigger] ports[k]);
    if j == ports.len() - 1 {
        lemma_only_port_at(init, index, i);
    } else {
        lemma_second_port_at(init, index, i, j);
    }
}

proof fn lemma_only_port_at(ports: Seq<PortModel>, index: u16, i: int)
    requires
        0 <= i < ports.len(),
        ports[i].uart_index == index,
        forall|k: int| 0 <= k < ports.len() && k != i ==> (#[trigger] ports[k]).uart_index != index,
    ensures
        ports_at(ports, index) == seq![ports[i]],
    decreases ports.len(),
{
    let init = ports.drop_last();
    assert(ports =~= init.push(ports.last()));
    lemma_ports_at_push(init, ports.last(), index);
    assert(forall|k: int| 0 <= k < init.len() ==> init[k] == #[trigger] ports[k]);
    if i == ports.len() - 1 {
        lemma_no_ports_at(init, index);
        assert(ports_at(init, index).push(ports[i]) =~= seq![ports[i]]);
    } else {
        assert(ports[ports.len() - 1].uart_index != index);
        lemma_only_port_at(init, index, i);
    }
}

/// Where no port is listed, that is what is reported. Where none of those
/// listed drives the UART, all their indices are reported, in order.
pub proof fn law_a_missing_uart_is_reported(ports: Seq<PortModel>, index: u16)
    requires
        forall|k: int| 0 <= k < ports.len() ==> (#[trigger] ports[k]).uart_index != index,
    ensures
        ports.len() == 0 ==> port_chosen(ports, index) == Err::<Seq<char>, DiscoveryErrorModel>(
            DiscoveryErrorModel::NoPorts,
        ),
        ports.len() > 0 ==> port_chosen(ports, index) == Err::<Seq<char>, DiscoveryErrorModel>(
            DiscoveryErrorModel::NoSuchUart {
                index,
                available: Seq::new(ports.len(), |k: int| ports[k].uart_index),
            },
        ),
{
    lemma_no_ports_at(ports, index);
    assert(ports.map_values(|p: PortModel| p.uart_index) =~= Seq::new(
        ports.len(),
        |k: int| ports[k].uart_index,
    ));
}

/// The only port that drives a UART is chosen for it, wherever it is listed.
pub proof fn law_the_only_port_is_chosen(ports: Seq<PortModel>, index: u16, i: int)
    requires
        0 <= i < ports.len(),
        ports[i].uart_index == index,
        forall|k: int| 0 <= k < ports.len() && k != i ==> (#[trigger] ports[k]).uart_index != index,
    ensures
        port_chosen(ports, index) == Ok::<Seq<char>, DiscoveryErrorModel>(ports[i].path),
{
    lemma_only_port_at(ports, index, i);
}

/// Where several ports drive a UART, none is chosen, and the first two of them
/// are reported in the order in which they are listed.
pub proof fn law_the_first_two_claimants_are_reported(
    ports: Seq<PortModel>,
    index: u16,
    i: int,
    j: int,
)
    requires
        0 <= i < j < ports.len(),
        ports[i].uart_index == index,
        ports[j].uart_index == index,
        forall|k: int| 0 <= k < j && k != i ==> (#[trigger] ports[k]).uart_index != index,
    ensures
        port_chosen(ports, index) == Err::<Seq<char>, DiscoveryErrorModel>(
            DiscoveryErrorModel::Ambiguous { index, first: ports[i].path, second: ports[j].path },
        ),
{
    lemma_first_port_at(ports, index, i);
    lemma_second_port_at(ports, index, i, j);
}

/// A file name is a candidate exactly where it begins with the bytes of
/// `ttyUSB` or of `ttyCH9344USB`.
pub proof fn law_candidates_begin_with_a_driver_name(name: Seq<u8>)
    ensures
        is_candidate(name) <==> {
            ||| name.len() >= 6 && name.take(6) == seq![0x74u8, 0x74, 0x79, 0x55, 0x53, 0x42]
            ||| name.len() >= 12 && name.take(12) == seq![
                0x74u8,
                0x74,
                0x79,
                0x43,
                0x48,
                0x39,
                0x33,
                0x34,
                0x34,
                0x55,
                0x53,
                0x42,
            ]
        },
{
    reveal_strlit("ttyUSB");
    reveal_strlit("ttyCH9344USB");
    let short = seq![0x74u8, 0x74, 0x79, 0x55, 0x53, 0x42];
    let long = seq![
        0x74u8,
        0x74,
        0x79,
        0x43,
        0x48,
        0x39,
        0x33,
        0x34,
        0x34,
        0x55,
        0x53,
        0x42,
    ];
    assert(forall|i: int| 0 <= i < 6 ==> short[i] == #[trigger] "ttyUSB"@[i] as u8);
    assert(forall|i: int| 0 <= i < 12 ==> long[i] == #[trigger] "ttyCH9344USB"@[i] as u8);
    if name.len() >= 6 {
        if begins_with(name, "ttyUSB"@) {
            assert(name.take(6) =~= short);
        }
        if name.take(6) == short {
            assert forall|i: int| 0 <= i < 6 implies #[trigger] name[i] == "ttyUSB"@[i] as u8 by {
                assert(name.take(6)[i] == short[i]);
            }
        }
    }
    if name.len() >= 12 {
        if begins_with(name, "ttyCH9344USB"@) {
            assert(name.take(12) =~= long);
        }
        if name.take(12) == long {
            assert forall|i: int| 0 <= i < 12 implies #[trigger] name[i] == "ttyCH9344USB"@[i] as u8
                by {
                assert(name.take(12)[i] == long[i]);
            }
        }
    }
}

/// The first byte in which two file names differ orders them, and a name comes
/// before every name that it begins.
pub proof fn law_the_first_difference_orders_names(a: Seq<u8>, b: Seq<u8>, i: int)
    requires
        0 <= i <= a.len(),
        i <= b.len(),
        forall|k: int| 0 <= k < i ==> a[k] == b[k],
    ensures
        i == a.len() ==> name_le(a, b),
        i == b.len() && i < a.len() ==> !name_le(a, b),
        i < a.len() && i < b.len() && a[i] < b[i] ==> name_le(a, b),
        i < a.len() && i < b.len() && a[i] > b[i] ==> !name_le(a, b),
    decreases i,
{
    if i > 0 {
        assert(a[0] == b[0]);
        law_the_first_difference_orders_names(a.drop_first(), b.drop_first(), i - 1);
    }
}

/// In a list that is in order, no name comes before an earlier one.
pub proof fn law_listed_names_ascend(names: Seq<Seq<u8>>, i: int, j: int)
    requires
        in_order(names),
        0 <= i <= j < names.len(),
    ensures
        name_le(names[i], names[j]),
{
}

proof fn lemma_untrimmed(text: Seq<char>)
    requires
        text.len() > 0 ==> !is_white_space(text[0]) && !is_white_space(text.last()),
    ensures
        trimmed_end(trimmed_start(text)) == text,
{
}

proof fn lemma_trimmed_start_push(text: Seq<char>, c: char)
    requires
        is_white_space(c),
    ensures
        trimmed_start(text).len() > 0 ==> trimmed_start(text.push(c)) == trimmed_start(text).push(c),
        trimmed_start(text).len() == 0 ==> trimmed_start(text.push(c)).len() == 0,
    decreases text.len(),
{
    if text.len() == 0 {
        assert(text.push(c).drop_first() =~= Seq::empty());
        assert(trimmed_start(Seq::<char>::empty()).len() == 0);
    } else if is_white_space(text[0]) {
        assert(text.push(c)[0] == text[0]);
        assert(text.push(c).drop_first() =~= text.drop_first().push(c));
        lemma_trimmed_start_push(text.drop_first(), c);
    } else {
        assert(text.push(c)[0] == text[0]);
    }
}

/// White space around a vendor ID does not matter.
pub proof fn law_white_space_around_an_id_is_ignored(text: Seq<char>, c: char)
    requires
        is_white_space(c),
    ensures
        vendor_id_of(seq![c] + text) == vendor_id_of(text),
        vendor_id_of(text.push(c)) == vendor_id_of(text),
{
    assert((seq![c] + text).drop_first() =~= text);
    lemma_trimmed_start_push(text, c);
    let start = trimmed_start(text);
    if start.len() > 0 {
        assert(start.push(c).drop_last() =~= start);
    } else {
        assert(start =~= trimmed_start(text.push(c)));
    }
}

/// In ASCII, the white space characters are the space and those from tab to
/// carriage return.
pub proof fn law_ascii_white_space(c: char)
    requires
        (c as int) < 128,
    ensures
        is_white_space(c) <==> c as int == 32 || 9 <= c as int <= 13,
{
}

/// The hexadecimal digits are those of ASCII, in both cases.
pub proof fn law_hexadecimal_digits(c: char, value: nat)
    ensures
        hex_digit_value(c) == Some(value) <==> {
            ||| value < 10 && c as int == 48 + value
            ||| 10 <= value < 16 && c as int == 65 + value - 10
            ||| 10 <= value < 16 && c as int == 97 + value - 10
        },
{
}

/// No text gives no ID, and neither does a sign without digits.
pub proof fn law_an_id_needs_a_digit()
    ensures
        vendor_id_of(Seq::empty()) is None,
        vendor_id_of(seq!['+']) is None,
{
    lemma_untrimmed(Seq::empty());
    lemma_untrimmed(seq!['+']);
    assert(seq!['+'].drop_first() =~= Seq::<char>::empty());
}

/// A digit behind an ID makes it sixteen times what it was, plus the digit, as
/// long as that fits in 16 bits. What gives no ID gives none with more digits
/// either, but for a sign.
pub proof fn law_an_id_grows_by_sixteen(text: Seq<char>, c: char, value: nat)
    requires
        hex_digit_value(c) == Some(value),
        text.len() > 0 ==> !is_white_space(text[0]) && !is_white_space(text.last()),
    ensures
        text.len() == 0 || text == seq!['+'] ==> vendor_id_of(text.push(c)) == Some(value as u16),
        text.len() > 0 && text != seq!['+'] ==> vendor_id_of(text.push(c)) == (match vendor_id_of(
            text,
        ) {
            Some(id) => if 16 * id + value <= 0xFFFF {
                Some((16 * id + value) as u16)
            } else {
                None
            },
            None => None,
        }),
{
    let more = text.push(c);
    lemma_untrimmed(text);
    assert(more[0] == if text.len() > 0 {
        text[0]
    } else {
        c
    });
    lemma_untrimmed(more);
    let signed = text.len() > 0 && text[0] == '+';
    let digits = if signed {
        text.drop_first()
    } else {
        text
    };
    let more_digits = if signed {
        more.drop_first()
    } else {
        more
    };
    assert(more_digits =~= digits.push(c));
    assert(more_digits.drop_last() =~= digits);
    if signed && digits.len() == 0 {
        assert(text =~= seq!['+']);
    }
    if text == seq!['+'] {
        assert(digits =~= Seq::empty());
    }
}

proof fn lemma_bad_digit(digits: Seq<char>, i: int)
    requires
        0 <= i < digits.len(),
        hex_digit_value(digits[i]) is None,
    ensures
        hex_value(digits) is None,
    decreases digits.len(),
{
    if i < digits.len() - 1 {
        lemma_bad_digit(digits.drop_last(), i);
    }
}

/// Text with anything in it but hexadecimal digits gives no ID, the sign before
/// the first digit and white space around being the only exceptions.
pub proof fn law_other_characters_give_no_id(text: Seq<char>, i: int)
    requires
        0 <= i < text.len(),
        !is_white_space(text[0]),
        !is_white_space(text.last()),
        hex_digit_value(text[i]) is None,
        i > 0 || text[0] != '+',
    ensures
        vendor_id_of(text) is None,
{
    lemma_untrimmed(text);
    if text[0] == '+' {
        assert(text.drop_first()[i - 1] == text[i]);
        lemma_bad_digit(text.drop_first(), i - 1);
    } else {
        lemma_bad_digit(text, i);
    }
}

/// A discovery error is worded with all that it knows: the UART looked for, the
/// UARTs that there are, or both claimants.
pub proof fn law_errors_say_what_they_know(
    index: u16,
    available: Seq<u16>,
    first: Seq<char>,
    second: Seq<char>,
)
    ensures
        discovery_text(DiscoveryErrorModel::NoPorts)
            == "no CH348 (VID 0x1a86) tty found; is the ch9344 driver loaded?"@,
        discovery_text(DiscoveryErrorModel::NoSuchUart { index, available })
            == "no CH348 tty with UART index "@ + crate::text::decimal(index as nat)
            + "; found indices ["@ + crate::text::joined(
            Seq::new(available.len(), |k: int| crate::text::decimal(available[k] as nat)),
            ", "@,
        ) + "]"@,
        discovery_text(DiscoveryErrorModel::Ambiguous { index, first, second }) == "UART index "@
            + crate::text::decimal(index as nat) + " is ambiguous: "@ + first + " and "@ + second
            + " both claim it; connect a single board or pass an explicit port"@,
{
    assert(available.map_values(|i: u16| crate::text::decimal(i as nat)) =~= Seq::new(
        available.len(),
        |k: int| crate::text::decimal(available[k] as nat),
    ));
}

/// The model of a list of ports shows all of them, in order, each with its path
/// and its index.
pub proof fn law_a_list_shows_all_its_ports(ports: Seq<Ch348Port>)
    ensures
        ports_view(ports).len() == ports.len(),
        forall|i: int|
            0 <= i < ports.len() ==> (#[trigger] ports_view(ports)[i]).path == ports[i].path@
                && ports_view(ports)[i].uart_index == ports[i].uart_index,
{
}

/// The model of a list of file names shows all of them, in order.
pub proof fn law_a_list_shows_all_its_names(names: Seq<Vec<u8>>)
    ensures
        names_view(names).len() == names.len(),
        forall|i: int| 0 <= i < names.len() ==> #[trigger] names_view(names)[i] == names[i]@,
{
}

/// The model of a discovery error shows, under the same kind, each of its fields
/// as it is.
pub proof fn law_an_error_shows_its_fields(error: DiscoveryError)
    ensures
        error is NoPorts ==> error@ is NoPorts,
        error matches DiscoveryError::NoSuchUart { index, available } ==> error@ == (
        DiscoveryErrorModel::NoSuchUart { index, available: available@ }),
        error matches DiscoveryError::Ambiguous { index, first, second } ==> error@ == (
        DiscoveryErrorModel::Ambiguous { index, first: first@, second: second@ }),
{
}

} // verus!
