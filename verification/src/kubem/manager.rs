//! Reconciles the external addresses that were staged for a node with the
//! address list that the node has, and says which list it is to have.
//!
//! The engine never talks to the cluster itself. Its caller reads the node's
//! address list and hands it in, and sends the list that the engine answers
//! with where the engine says that the two differ.

use vstd::prelude::*;
use crate::ekacore::traits::Discard;
use crate::ip::{ip_lt, IpLiteral};
use crate::ipmap::{lemma_entry_is_mapped, IpMap};
use crate::ipset::{ascending, lemma_ascending_unique, IpSet};

verus! {

/// How one address was treated by a reconciliation pass.
#[derive(Clone, Copy, Debug, PartialEq, Eq, Structural, Hash)]
pub enum AddrStatus {
    /// The address was added to the node, or is seen on it for the first time.
    New,
    /// The address was on the node already and was left there.
    Skipped,
    /// The address was taken off the node.
    Removed,
}

impl AddrStatus {
    pub fn is_new(&self) -> (r: bool)
        ensures
            r == (*self is New),
    {
        match self {
            AddrStatus::New => true,
            _ => false,
        }
    }

    pub fn is_skipped(&self) -> (r: bool)
        ensures
            r == (*self is Skipped),
    {
        match self {
            AddrStatus::Skipped => true,
            _ => false,
        }
    }

    pub fn is_removed(&self) -> (r: bool)
        ensures
            r == (*self is Removed),
    {
        match self {
            AddrStatus::Removed => true,
            _ => false,
        }
    }
}

/// One entry of a node's address list.
#[derive(Clone, Debug, PartialEq, Eq)]
pub enum NodeAddress {
    /// An entry that is no external address, such as a host name or an
    /// internal address: its type and its text, carried as they are.
    Other { type_: String, address: String },
    /// An external address.
    External(IpLiteral),
}

impl NodeAddress {
    /// A copy of the entry.
    pub fn duplicate(&self) -> (copy: NodeAddress)
        ensures
            copy == *self,
    {
        match self {
            NodeAddress::Other { type_, address } => NodeAddress::Other {
                type_: type_.clone(),
                address: address.clone(),
            },
            NodeAddress::External(ip) => NodeAddress::External(*ip),
        }
    }

    /// Whether the entry is an external address.
    pub fn is_external(&self) -> (r: bool)
        ensures
            r == (*self is External),
    {
        match self {
            NodeAddress::Other { .. } => false,
            NodeAddress::External(_) => true,
        }
    }
}

/// One entry of a node's address list as it is read from the cluster: the
/// type and the text of the address, and the IP address that the text
/// spells, if it spells one.
#[derive(Clone, Debug, PartialEq, Eq)]
pub struct RawAddress {
    pub type_: String,
    pub address: String,
    pub ip: Option<IpLiteral>,
}

/// The type of an entry that is an internal address.
pub const TYPE_INTERNAL_IP: &'static str = "InternalIP";

/// The type of an entry that is an external address.
pub const TYPE_EXTERNAL_IP: &'static str = "ExternalIP";

/// Whether the entry is typed as an internal address.
pub open spec fn spec_is_internal_ip(node_address: RawAddress) -> bool {
    node_address.type_@ == TYPE_INTERNAL_IP@
}

/// Whether the entry is typed as an external address.
pub open spec fn spec_is_external_ip(node_address: RawAddress) -> bool {
    node_address.type_@ == TYPE_EXTERNAL_IP@
}

/// The IP address of an entry that is typed as an internal or an external
/// address, where its text spells one.
pub open spec fn spec_parse_ip(node_address: RawAddress) -> Option<IpLiteral> {
    if spec_is_internal_ip(node_address) || spec_is_external_ip(node_address) {
        node_address.ip
    } else {
        None
    }
}

/// The entry as the engine holds it: an external address by its number,
/// any other entry as it is.
pub open spec fn spec_node_address(node_address: RawAddress) -> NodeAddress {
    if spec_is_external_ip(node_address) {
        NodeAddress::External(node_address.ip.unwrap())
    } else {
        NodeAddress::Other { type_: node_address.type_, address: node_address.address }
    }
}

/// Every entry of `list` that is typed as an external address spells an IP
/// address.
pub open spec fn externals_are_addresses(list: Seq<RawAddress>) -> bool {
    forall|i: int| 0 <= i < list.len() && spec_is_external_ip(#[trigger] list[i]) ==> list[i].ip is Some
}

/// The IP addresses of the entries of `list` that are typed as external
/// addresses and spell one, in the order of the list.
pub open spec fn current_addresses(list: Seq<RawAddress>) -> Seq<IpLiteral>
    decreases list.len(),
{
    if list.len() == 0 {
        Seq::empty()
    } else if spec_is_external_ip(list.last()) && list.last().ip is Some {
        current_addresses(list.drop_last()).push(list.last().ip.unwrap())
    } else {
        current_addresses(list.drop_last())
    }
}

/// Whether the entry is typed as an internal address.
pub fn is_internal_ip(node_address: &RawAddress) -> (r: bool)
    ensures
        r == spec_is_internal_ip(*node_address),
{
    node_address.type_ == TYPE_INTERNAL_IP.to_owned()
}

/// Whether the entry is typed as an external address.
pub fn is_external_ip(node_address: &RawAddress) -> (r: bool)
    ensures
        r == spec_is_external_ip(*node_address),
{
    node_address.type_ == TYPE_EXTERNAL_IP.to_owned()
}

/// Whether the entry is typed as an internal or as an external address.
pub fn is_internal_external_ip(node_address: &RawAddress) -> (r: bool)
    ensures
        r == (spec_is_internal_ip(*node_address) || spec_is_external_ip(*node_address)),
{
    is_internal_ip(node_address) || is_external_ip(node_address)
}

/// The IP address of an entry that is typed as an internal or an external
/// address, where its text spells one.
pub fn parse_ip(node_address: &RawAddress) -> (ip: Option<IpLiteral>)
    ensures
        ip == spec_parse_ip(*node_address),
{
    if is_internal_external_ip(node_address) {
        node_address.ip
    } else {
        None
    }
}

/// An entry of the type `type_` for the address `ip`, whose text is `address`.
pub fn new_node_address(ip: &IpLiteral, address: String, type_: &str) -> (node_address: RawAddress)
    ensures
        node_address.ip == Some(*ip),
        node_address.address == address,
        node_address.type_@ == type_@,
{
    RawAddress { address, type_: type_.to_owned(), ip: Some(*ip) }
}

/// The entry as the engine holds it. An entry that is typed as an external
/// address has to spell an IP address.
pub fn node_address(raw: RawAddress) -> (node_address: NodeAddress)
    requires
        spec_is_external_ip(raw) ==> raw.ip is Some,
    ensures
        node_address == spec_node_address(raw),
{
    if is_external_ip(&raw) {
        match raw.ip {
            Some(external_ip) => NodeAddress::External(external_ip),
            None => NodeAddress::Other { type_: raw.type_, address: raw.address },
        }
    } else {
        NodeAddress::Other { type_: raw.type_, address: raw.address }
    }
}

/// The entries as the engine holds them, in the same order.
pub fn node_addresses(raws: Vec<RawAddress>) -> (list: Vec<NodeAddress>)
    requires
        externals_are_addresses(raws@),
    ensures
        list@ == raws@.map_values(|raw: RawAddress| spec_node_address(raw)),
{
    let ghost all = raws@;
    let mut list: Vec<NodeAddress> = Vec::new();
    for raw in it: raws.into_iter()
        invariant
            it.seq() == all,
            externals_are_addresses(all),
            list@ == all.subrange(0, it.index() as int).map_values(|raw: RawAddress| spec_node_address(raw)),
    {
        assert(all[it.index() as int] == raw);
        list.push(node_address(raw));
        assert(list@ =~= all.subrange(0, it.index() + 1).map_values(
            |raw: RawAddress| spec_node_address(raw),
        ));
    }
    assert(all.subrange(0, all.len() as int) =~= all);
    list
}

/// The external addresses on `list`.
pub open spec fn externals(list: Seq<NodeAddress>) -> Set<IpLiteral> {
    Set::new(|ip: IpLiteral| list.contains(NodeAddress::External(ip)))
}

/// The entries of `list` that are no external addresses, in the order of the list.
pub open spec fn non_externals(list: Seq<NodeAddress>) -> Seq<NodeAddress>
    decreases list.len(),
{
    if list.len() == 0 {
        Seq::empty()
    } else if list.last() is External {
        non_externals(list.drop_last())
    } else {
        non_externals(list.drop_last()).push(list.last())
    }
}

/// Whether a pass keeps `entry`: an entry that is no external address always
/// stays; an external address stays if it is staged, or if nothing is purged.
pub open spec fn keeps(entry: NodeAddress, staged: Seq<IpLiteral>, purge: bool) -> bool {
    match entry {
        NodeAddress::External(ip) => staged.contains(ip) || !purge,
        NodeAddress::Other { .. } => true,
    }
}

/// The entries of `list` that a pass keeps, in the order of the list.
pub open spec fn kept(list: Seq<NodeAddress>, staged: Seq<IpLiteral>, purge: bool) -> Seq<NodeAddress>
    decreases list.len(),
{
    if list.len() == 0 {
        Seq::empty()
    } else if keeps(list.last(), staged, purge) {
        kept(list.drop_last(), staged, purge).push(list.last())
    } else {
        kept(list.drop_last(), staged, purge)
    }
}

/// The staged addresses that are not among `present`, as entries, in the
/// order in which they are staged.
pub open spec fn additions(staged: Seq<IpLiteral>, present: Set<IpLiteral>) -> Seq<NodeAddress>
    decreases staged.len(),
{
    if staged.len() == 0 {
        Seq::empty()
    } else if present.contains(staged.last()) {
        additions(staged.drop_last(), present)
    } else {
        additions(staged.drop_last(), present).push(NodeAddress::External(staged.last()))
    }
}

/// The list that the node is to have: what is kept of `list`, then the
/// staged addresses that `list` lacks.
pub open spec fn desired(list: Seq<NodeAddress>, staged: Seq<IpLiteral>, purge: bool) -> Seq<NodeAddress> {
    kept(list, staged, purge) + additions(staged, externals(list))
}

/// Whether the node has to be patched: the list it is to have is not the
/// list it has.
pub open spec fn patch_needed(list: Seq<NodeAddress>, staged: Seq<IpLiteral>, purge: bool) -> bool {
    desired(list, staged, purge) != list
}

/// How a pass treats the address `ip`, which is on the node or staged.
///
/// An address on the node that is staged is skipped, unless the engine sees
/// it for the first time, which makes it new. One that is not staged is
/// removed when purging and skipped otherwise. A staged address that the node
/// lacks is new.
pub open spec fn status_of(
    ip: IpLiteral,
    present: Set<IpLiteral>,
    staged: Seq<IpLiteral>,
    known: Set<IpLiteral>,
    purge: bool,
) -> AddrStatus {
    if present.contains(ip) {
        if staged.contains(ip) {
            if known.contains(ip) {
                AddrStatus::Skipped
            } else {
                AddrStatus::New
            }
        } else if purge {
            AddrStatus::Removed
        } else {
            AddrStatus::Skipped
        }
    } else {
        AddrStatus::New
    }
}

/// What a pass reports: the status of every address that is on the node or staged.
pub open spec fn report_of(
    list: Seq<NodeAddress>,
    staged: Seq<IpLiteral>,
    known: Set<IpLiteral>,
    purge: bool,
) -> Map<IpLiteral, AddrStatus> {
    Map::new(
        |ip: IpLiteral| externals(list).contains(ip) || staged.contains(ip),
        |ip: IpLiteral| status_of(ip, externals(list), staged, known, purge),
    )
}

/// The addresses as entries of a node's list.
pub open spec fn as_externals(ips: Seq<IpLiteral>) -> Seq<NodeAddress> {
    ips.map_values(|ip: IpLiteral| NodeAddress::External(ip))
}

/// Adding an entry to a list adds its address, if it is external, to the
/// external addresses of the list.
pub proof fn lemma_externals_push(list: Seq<NodeAddress>, entry: NodeAddress)
    ensures
        externals(list.push(entry)) == match entry {
            NodeAddress::External(ip) => externals(list).insert(ip),
            NodeAddress::Other { .. } => externals(list),
        },
{
    let longer = list.push(entry);
    let expected = match entry {
        NodeAddress::External(ip) => externals(list).insert(ip),
        NodeAddress::Other { .. } => externals(list),
    };
    assert forall|ip: IpLiteral| externals(longer).contains(ip) <==> expected.contains(ip) by {
        let wanted = NodeAddress::External(ip);
        if longer.contains(wanted) {
            let i = choose|i: int| 0 <= i < longer.len() && longer[i] == wanted;
            if i < list.len() {
                assert(list[i] == wanted);
            }
        }
        if list.contains(wanted) {
            let i = choose|i: int| 0 <= i < list.len() && list[i] == wanted;
            assert(longer[i] == wanted);
        }
        if entry == wanted {
            assert(longer[list.len() as int] == wanted);
        }
    }
    assert(externals(longer) =~= expected);
}

/// What is kept of a list is no longer than the list, holds only entries of
/// the list that the pass keeps, and is the list itself exactly when every
/// entry is kept.
pub proof fn lemma_kept(list: Seq<NodeAddress>, staged: Seq<IpLiteral>, purge: bool)
    ensures
        kept(list, staged, purge).len() <= list.len(),
        forall|i: int|
            0 <= i < kept(list, staged, purge).len() ==> list.contains(
                #[trigger] kept(list, staged, purge)[i],
            ) && keeps(kept(list, staged, purge)[i], staged, purge),
        forall|i: int|
            0 <= i < list.len() && keeps(#[trigger] list[i], staged, purge) ==> kept(
                list,
                staged,
                purge,
            ).contains(list[i]),
        (kept(list, staged, purge) == list) <==> kept(list, staged, purge).len() == list.len(),
        (kept(list, staged, purge) == list) <==> (forall|i: int|
            0 <= i < list.len() ==> keeps(#[trigger] list[i], staged, purge)),
    decreases list.len(),
{
    let k = kept(list, staged, purge);
    if list.len() > 0 {
        let front = list.drop_last();
        let kf = kept(front, staged, purge);
        lemma_kept(front, staged, purge);
        assert forall|i: int| 0 <= i < k.len() implies list.contains(#[trigger] k[i]) && keeps(
            k[i],
            staged,
            purge,
        ) by {
            if i < kf.len() {
                assert(k[i] == kf[i]);
                let j = choose|j: int| 0 <= j < front.len() && front[j] == kf[i];
                assert(list[j] == k[i]);
            } else {
                assert(list[list.len() - 1] == k[i]);
            }
        }
        assert forall|i: int| 0 <= i < list.len() && keeps(#[trigger] list[i], staged, purge) implies k.contains(
            list[i],
        ) by {
            if i < front.len() {
                assert(front[i] == list[i]);
                let j = choose|j: int| 0 <= j < kf.len() && kf[j] == front[i];
                assert(k[j] == list[i]);
            } else {
                assert(k[k.len() - 1] == list[i]);
            }
        }
        if k.len() == list.len() {
            assert(keeps(list.last(), staged, purge));
            assert(kf == front);
            assert(k =~= list);
        }
        if forall|i: int| 0 <= i < list.len() ==> keeps(#[trigger] list[i], staged, purge) {
            assert(keeps(list[list.len() - 1], staged, purge));
            assert forall|i: int| 0 <= i < front.len() implies keeps(#[trigger] front[i], staged, purge) by {
                assert(front[i] == list[i]);
            }
            assert(kf == front);
            assert(k =~= list);
        }
        if k == list {
            assert forall|i: int| 0 <= i < list.len() implies keeps(#[trigger] list[i], staged, purge) by {
                assert(keeps(k[i], staged, purge));
            }
        }
    } else {
        assert(k =~= list);
    }
}

/// The additions are the staged addresses that are not present, each once
/// for each time it is staged.
pub proof fn lemma_additions(staged: Seq<IpLiteral>, present: Set<IpLiteral>)
    ensures
        forall|i: int|
            0 <= i < additions(staged, present).len() ==> (exists|ip: IpLiteral|
                #[trigger] additions(staged, present)[i] == NodeAddress::External(ip) && staged.contains(ip)
                    && !present.contains(ip)),
        forall|ip: IpLiteral|
            staged.contains(ip) && !present.contains(ip) ==> #[trigger] additions(staged, present).contains(
                NodeAddress::External(ip),
            ),
        additions(staged, present).len() == 0 <==> (forall|i: int|
            0 <= i < staged.len() ==> present.contains(#[trigger] staged[i])),
    decreases staged.len(),
{
    let a = additions(staged, present);
    if staged.len() > 0 {
        let front = staged.drop_last();
        let af = additions(front, present);
        lemma_additions(front, present);
        assert forall|i: int| 0 <= i < a.len() implies (exists|ip: IpLiteral|
            #[trigger] a[i] == NodeAddress::External(ip) && staged.contains(ip) && !present.contains(ip)) by {
            if i < af.len() {
                assert(a[i] == af[i]);
                let ip = choose|ip: IpLiteral|
                    af[i] == NodeAddress::External(ip) && front.contains(ip) && !present.contains(ip);
                let j = choose|j: int| 0 <= j < front.len() && front[j] == ip;
                assert(staged[j] == ip);
                assert(a[i] == NodeAddress::External(ip) && staged.contains(ip) && !present.contains(ip));
            } else {
                let ip = staged.last();
                assert(staged[staged.len() - 1] == ip);
                assert(a[i] == NodeAddress::External(ip) && staged.contains(ip) && !present.contains(ip));
            }
        }
        assert forall|ip: IpLiteral| staged.contains(ip) && !present.contains(ip) implies #[trigger] a.contains(
            NodeAddress::External(ip),
        ) by {
            let j = choose|j: int| 0 <= j < staged.len() && staged[j] == ip;
            if j < front.len() {
                assert(front[j] == ip);
                assert(front.contains(ip));
                assert(af.contains(NodeAddress::External(ip)));
                let m = choose|m: int| 0 <= m < af.len() && af[m] == NodeAddress::External(ip);
                assert(a[m] == NodeAddress::External(ip));
            } else {
                assert(a[a.len() - 1] == NodeAddress::External(ip));
            }
        }
        if a.len() == 0 {
            assert forall|i: int| 0 <= i < staged.len() implies present.contains(#[trigger] staged[i]) by {
                if i < front.len() {
                    assert(front[i] == staged[i]);
                }
            }
        }
        if forall|i: int| 0 <= i < staged.len() ==> present.contains(#[trigger] staged[i]) {
            assert(present.contains(staged[staged.len() - 1]));
            assert forall|i: int| 0 <= i < front.len() implies present.contains(#[trigger] front[i]) by {
                assert(front[i] == staged[i]);
            }
        }
    }
}

/// The node has to be patched exactly when the pass drops an entry or adds one.
pub proof fn lemma_patch_needed(list: Seq<NodeAddress>, staged: Seq<IpLiteral>, purge: bool)
    ensures
        patch_needed(list, staged, purge) <==> (kept(list, staged, purge).len() < list.len() || additions(
            staged,
            externals(list),
        ).len() > 0),
{
    let k = kept(list, staged, purge);
    let a = additions(staged, externals(list));
    lemma_kept(list, staged, purge);
    lemma_additions(staged, externals(list));
    if a.len() > 0 {
        let d = desired(list, staged, purge);
        let last = d[d.len() - 1];
        assert(last == a[a.len() - 1]);
        let ip = choose|ip: IpLiteral|
            a[a.len() - 1] == NodeAddress::External(ip) && staged.contains(ip) && !externals(list).contains(ip);
        if d == list {
            assert(list[d.len() - 1] == NodeAddress::External(ip));
            assert(list.contains(NodeAddress::External(ip)));
        }
    } else {
        assert(desired(list, staged, purge) =~= k);
    }
}

/// The external addresses of the list that the node is to have: those of
/// its present list that are kept, and all that are staged.
pub proof fn lemma_desired_externals(list: Seq<NodeAddress>, staged: Seq<IpLiteral>, purge: bool)
    ensures
        externals(desired(list, staged, purge)) == Set::new(
            |ip: IpLiteral| staged.contains(ip) || (externals(list).contains(ip) && !purge),
        ),
        externals(kept(list, staged, purge)) == Set::new(
            |ip: IpLiteral| externals(list).contains(ip) && (staged.contains(ip) || !purge),
        ),
{
    let k = kept(list, staged, purge);
    let a = additions(staged, externals(list));
    let d = desired(list, staged, purge);
    lemma_kept(list, staged, purge);
    lemma_additions(staged, externals(list));
    assert forall|ip: IpLiteral|
        externals(k).contains(ip) <==> (externals(list).contains(ip) && (staged.contains(ip) || !purge)) by {
        let wanted = NodeAddress::External(ip);
        if k.contains(wanted) {
            let i = choose|i: int| 0 <= i < k.len() && k[i] == wanted;
            assert(list.contains(k[i]) && keeps(k[i], staged, purge));
        }
        if list.contains(wanted) && (staged.contains(ip) || !purge) {
            let i = choose|i: int| 0 <= i < list.len() && list[i] == wanted;
            assert(keeps(list[i], staged, purge));
        }
    }
    assert(externals(k) =~= Set::new(
        |ip: IpLiteral| externals(list).contains(ip) && (staged.contains(ip) || !purge),
    ));
    assert forall|ip: IpLiteral|
        externals(d).contains(ip) <==> (staged.contains(ip) || (externals(list).contains(ip) && !purge)) by {
        let wanted = NodeAddress::External(ip);
        if d.contains(wanted) {
            let i = choose|i: int| 0 <= i < d.len() && d[i] == wanted;
            if i < k.len() {
                assert(k[i] == wanted);
                assert(k.contains(wanted));
                assert(externals(k).contains(ip));
            } else {
                assert(a[i - k.len()] == wanted);
                let other = choose|other: IpLiteral|
                    a[i - k.len()] == NodeAddress::External(other) && staged.contains(other)
                        && !externals(list).contains(other);
                assert(other == ip);
            }
        }
        if staged.contains(ip) || (externals(list).contains(ip) && !purge) {
            if externals(list).contains(ip) {
                assert(externals(k).contains(ip));
                let i = choose|i: int| 0 <= i < k.len() && k[i] == wanted;
                assert(d[i] == wanted);
            } else {
                assert(a.contains(wanted));
                let i = choose|i: int| 0 <= i < a.len() && a[i] == wanted;
                assert(d[k.len() + i] == wanted);
            }
        }
    }
    assert(externals(d) =~= Set::new(
        |ip: IpLiteral| staged.contains(ip) || (externals(list).contains(ip) && !purge),
    ));
}

/// The entries that are no external addresses outlast every pass, in their
/// order and as they are.
pub proof fn lemma_non_externals_stay(list: Seq<NodeAddress>, staged: Seq<IpLiteral>, purge: bool)
    ensures
        non_externals(kept(list, staged, purge)) == non_externals(list),
        non_externals(desired(list, staged, purge)) == non_externals(list),
{
    lemma_non_externals_of_kept(list, staged, purge);
    lemma_non_externals_of_additions(kept(list, staged, purge), staged, externals(list));
}

/// What is kept of a list has the entries of the list that are no external
/// addresses.
proof fn lemma_non_externals_of_kept(list: Seq<NodeAddress>, staged: Seq<IpLiteral>, purge: bool)
    ensures
        non_externals(kept(list, staged, purge)) == non_externals(list),
    decreases list.len(),
{
    if list.len() > 0 {
        lemma_non_externals_of_kept(list.drop_last(), staged, purge);
        if keeps(list.last(), staged, purge) {
            let shorter = kept(list.drop_last(), staged, purge);
            assert(shorter.push(list.last()).drop_last() =~= shorter);
        }
    }
}

/// Appending the additions adds no entry that is no external address.
proof fn lemma_non_externals_of_additions(front: Seq<NodeAddress>, staged: Seq<IpLiteral>, present: Set<IpLiteral>)
    ensures
        non_externals(front + additions(staged, present)) == non_externals(front),
    decreases staged.len(),
{
    if staged.len() == 0 {
        assert(front + additions(staged, present) =~= front);
    } else {
        lemma_non_externals_of_additions(front, staged.drop_last(), present);
        let shorter = additions(staged.drop_last(), present);
        if !present.contains(staged.last()) {
            let entry = NodeAddress::External(staged.last());
            assert(front + shorter.push(entry) =~= (front + shorter).push(entry));
            assert((front + shorter).push(entry).drop_last() =~= front + shorter);
        }
    }
}

/// Where nothing is purged, a pass takes nothing off the node: the list
/// that the node is to have begins with the list that it has.
pub proof fn lemma_nothing_lost_unless_purged(list: Seq<NodeAddress>, staged: Seq<IpLiteral>)
    ensures
        kept(list, staged, false) == list,
        desired(list, staged, false) == list + additions(staged, externals(list)),
        externals(list).subset_of(externals(desired(list, staged, false))),
{
    lemma_kept(list, staged, false);
    lemma_desired_externals(list, staged, false);
}

/// On a node whose external addresses are those that a pass decided, a
/// second pass with the same staged addresses drops nothing and adds
/// nothing, whatever the order and the other entries of the node's list.
pub proof fn lemma_settled_needs_no_patch(
    list: Seq<NodeAddress>,
    staged: Seq<IpLiteral>,
    purge: bool,
    next: Seq<NodeAddress>,
)
    requires
        externals(next) == externals(desired(list, staged, purge)),
    ensures
        !patch_needed(next, staged, purge),
        desired(next, staged, purge) == next,
{
    lemma_desired_externals(list, staged, purge);
    lemma_kept(next, staged, purge);
    lemma_additions(staged, externals(next));
    lemma_patch_needed(next, staged, purge);
    assert forall|i: int| 0 <= i < next.len() implies keeps(#[trigger] next[i], staged, purge) by {
        match next[i] {
            NodeAddress::External(ip) => {
                assert(next.contains(NodeAddress::External(ip)));
                assert(externals(next).contains(ip));
            },
            NodeAddress::Other { .. } => {},
        }
    }
    assert forall|i: int| 0 <= i < staged.len() implies externals(next).contains(#[trigger] staged[i]) by {
        assert(staged.contains(staged[i]));
    }
}

/// A pass is idempotent: once the node has the list that a pass decided, a
/// second pass with the same staged addresses decides the same list, so that
/// at most one patch is sent.
pub proof fn lemma_apply_is_idempotent(list: Seq<NodeAddress>, staged: Seq<IpLiteral>, purge: bool)
    ensures
        !patch_needed(desired(list, staged, purge), staged, purge),
        desired(desired(list, staged, purge), staged, purge) == desired(list, staged, purge),
{
    lemma_settled_needs_no_patch(list, staged, purge, desired(list, staged, purge));
}

/// Where the engine stands in its cycle.
#[derive(Clone, Copy, Debug, PartialEq, Eq, Structural, Hash)]
pub enum State {
    /// The cache reflects the node and nothing is staged.
    Fresh,
    /// At least one address is staged for the pending pass.
    Staged,
    /// A pass has been made and the cache has not been refreshed since.
    Applied,
}

/// Why a pass was refused.
#[derive(Clone, Copy, Debug, PartialEq, Eq, Structural, Hash)]
pub enum ApplyError {
    /// No addresses are staged and removing the unstaged ones is not
    /// requested: going on would make no sense, or strip the node by accident.
    NothingStaged,
}

impl State {
    pub fn is_fresh(&self) -> (r: bool)
        ensures
            r == (*self is Fresh),
    {
        match self {
            State::Fresh => true,
            _ => false,
        }
    }

    pub fn is_staged(&self) -> (r: bool)
        ensures
            r == (*self is Staged),
    {
        match self {
            State::Staged => true,
            _ => false,
        }
    }

    pub fn is_applied(&self) -> (r: bool)
        ensures
            r == (*self is Applied),
    {
        match self {
            State::Applied => true,
            _ => false,
        }
    }
}

impl ApplyError {
    /// The error in words.
    pub fn message(&self) -> (text: &'static str)
        ensures
            text@ == "no addresses are staged and remove unapplied is not requested"@,
    {
        match self {
            ApplyError::NothingStaged => "no addresses are staged and remove unapplied is not requested",
        }
    }
}

/// What a pass decided.
#[derive(Clone, Debug)]
pub struct Plan {
    /// The full address list that the node is to have.
    pub addresses: Vec<NodeAddress>,
    /// Whether that list differs from the one the node has, so that it has
    /// to be sent. Where it is `false` nothing is to be sent.
    pub patch: bool,
    /// Whether sending is to validate only and persist nothing.
    pub dry_run: bool,
    /// How each address that is on the node or staged was treated.
    pub report: IpMap<AddrStatus>,
}

/// What a pass works out before the engine takes it over.
struct Pass {
    addresses: Vec<NodeAddress>,
    preserved: Vec<NodeAddress>,
    report: IpMap<AddrStatus>,
    known: IpSet,
    previous: IpSet,
    patch: bool,
}

/// Walks the node's list `base`: keeps or drops each entry, then appends the
/// staged addresses that the list lacks.
fn reconcile(base: Vec<NodeAddress>, pending: &IpSet, previous: &IpSet, known: &IpSet, purge: bool) -> (pass:
    Pass)
    requires
        pending.wf(),
        previous.wf(),
        known.wf(),
    ensures
        pass.addresses@ == desired(base@, pending.seq(), purge),
        pass.patch == patch_needed(base@, pending.seq(), purge),
        pass.preserved@ == non_externals(base@),
        forall|i: int| 0 <= i < pass.preserved@.len() ==> !(#[trigger] pass.preserved@[i] is External),
        pass.report.wf(),
        pass.report@ == report_of(base@, pending.seq(), known@, purge),
        pass.known.wf(),
        pass.known@ == externals(desired(base@, pending.seq(), purge)),
        pass.previous.wf(),
        pass.previous@ == pending@.union(previous@.intersect(externals(kept(base@, pending.seq(), purge)))),
{
    let ghost all = base@;
    let ghost staged = pending.seq();
    let total: usize = base.len();
    let mut addresses: Vec<NodeAddress> = Vec::new();
    let mut preserved: Vec<NodeAddress> = Vec::new();
    let mut report: IpMap<AddrStatus> = IpMap::new();
    let mut present = IpSet::new();
    let mut known_now = IpSet::new();
    let mut previous_now = IpSet::new();
    proof {
        pending.lemma_seq();
    }
    for entry in it: base.into_iter()
        invariant
            it.seq() == all,
            pending.wf(),
            previous.wf(),
            known.wf(),
            staged == pending.seq(),
            staged.to_set() == pending@,
            addresses@ == kept(all.subrange(0, it.index() as int), staged, purge),
            preserved@ == non_externals(all.subrange(0, it.index() as int)),
            forall|i: int| 0 <= i < preserved@.len() ==> !(#[trigger] preserved@[i] is External),
            present.wf(),
            present@ == externals(all.subrange(0, it.index() as int)),
            report.wf(),
            report@ == Map::new(
                |ip: IpLiteral| present@.contains(ip),
                |ip: IpLiteral| status_of(ip, present@, staged, known@, purge),
            ),
            known_now.wf(),
            known_now@ == Set::new(|ip: IpLiteral| present@.contains(ip) && (staged.contains(ip) || !purge)),
            previous_now.wf(),
            previous_now@ == Set::new(
                |ip: IpLiteral|
                    present@.contains(ip) && (staged.contains(ip) || !purge) && previous@.contains(ip),
            ),
    {
        let ghost seen = present@;
        let ghost prefix = all.subrange(0, it.index() as int);
        let ghost longer = all.subrange(0, it.index() + 1);
        proof {
            assert(longer.drop_last() =~= prefix);
            assert(longer =~= prefix.push(entry));
            lemma_externals_push(prefix, entry);
        }
        match entry {
            NodeAddress::Other { .. } => {
                preserved.push(entry.duplicate());
                addresses.push(entry);
            },
            NodeAddress::External(ip) => {
                present.insert(ip).discard();
                let is_staged: bool = pending.contains(&ip);
                assert(is_staged == staged.contains(ip));
                if is_staged || !purge {
                    known_now.insert(ip).discard();
                    if previous.contains(&ip) {
                        previous_now.insert(ip).discard();
                    }
                    addresses.push(entry);
                }
                let status = if is_staged {
                    if known.contains(&ip) {
                        AddrStatus::Skipped
                    } else {
                        AddrStatus::New
                    }
                } else if purge {
                    AddrStatus::Removed
                } else {
                    AddrStatus::Skipped
                };
                report.insert(ip, status).discard();
                proof {
                    assert(report@ =~= Map::new(
                        |ip: IpLiteral| present@.contains(ip),
                        |ip: IpLiteral| status_of(ip, present@, staged, known@, purge),
                    ));
                    assert(known_now@ =~= Set::new(
                        |ip: IpLiteral| present@.contains(ip) && (staged.contains(ip) || !purge),
                    ));
                    assert(previous_now@ =~= Set::new(
                        |ip: IpLiteral|
                            present@.contains(ip) && (staged.contains(ip) || !purge) && previous@.contains(
                                ip,
                            ),
                    ));
                }
            },
        }
    }
    proof {
        assert(all.subrange(0, all.len() as int) =~= all);
        lemma_kept(all, staged, purge);
        lemma_desired_externals(all, staged, purge);
    }
    let dropped: bool = addresses.len() < total;
    let mut added: bool = false;
    let n: usize = pending.len();
    let mut k: usize = 0;
    while k < n
        invariant
            pending.wf(),
            staged == pending.seq(),
            staged.to_set() == pending@,
            n == staged.len(),
            k <= n,
            present.wf(),
            present@ == externals(all),
            addresses@ == kept(all, staged, purge) + additions(staged.subrange(0, k as int), present@),
            added == (additions(staged.subrange(0, k as int), present@).len() > 0),
            report.wf(),
            report@ == Map::new(
                |ip: IpLiteral| present@.contains(ip) || staged.subrange(0, k as int).contains(ip),
                |ip: IpLiteral| status_of(ip, present@, staged, known@, purge),
            ),
            known_now.wf(),
            known_now@ == Set::new(
                |ip: IpLiteral|
                    (present@.contains(ip) && (staged.contains(ip) || !purge)) || staged.subrange(
                        0,
                        k as int,
                    ).contains(ip),
            ),
            previous_now.wf(),
            previous_now@ == Set::new(
                |ip: IpLiteral|
                    (present@.contains(ip) && (staged.contains(ip) || !purge) && previous@.contains(ip))
                        || staged.subrange(0, k as int).contains(ip),
            ),
        decreases n - k,
    {
        let ip = pending.get(k);
        let ghost before = staged.subrange(0, k as int);
        let ghost after = staged.subrange(0, k + 1);
        proof {
            assert(after.drop_last() =~= before);
            assert(after.last() == ip);
            assert forall|other: IpLiteral| after.contains(other) <==> (before.contains(other) || other == ip) by {
                if after.contains(other) {
                    let j = choose|j: int| 0 <= j < after.len() && after[j] == other;
                    if j < k {
                        assert(before[j] == other);
                    }
                }
                if before.contains(other) {
                    let j = choose|j: int| 0 <= j < before.len() && before[j] == other;
                    assert(after[j] == other);
                }
                if other == ip {
                    assert(after[k as int] == other);
                }
            }
            assert(staged.contains(ip));
        }
        if !present.contains(&ip) {
            addresses.push(NodeAddress::External(ip));
            report.insert(ip, AddrStatus::New).discard();
            added = true;
            proof {
                assert(addresses@ =~= kept(all, staged, purge) + additions(after, present@));
            }
        }
        known_now.insert(ip).discard();
        previous_now.insert(ip).discard();
        proof {
            assert(report@ =~= Map::new(
                |ip: IpLiteral| present@.contains(ip) || after.contains(ip),
                |ip: IpLiteral| status_of(ip, present@, staged, known@, purge),
            ));
            assert(known_now@ =~= Set::new(
                |ip: IpLiteral|
                    (present@.contains(ip) && (staged.contains(ip) || !purge)) || after.contains(ip),
            ));
            assert(previous_now@ =~= Set::new(
                |ip: IpLiteral|
                    (present@.contains(ip) && (staged.contains(ip) || !purge) && previous@.contains(ip))
                        || after.contains(ip),
            ));
        }
        k = k + 1;
    }
    proof {
        assert(staged.subrange(0, n as int) =~= staged);
        lemma_patch_needed(all, staged, purge);
        assert(report@ =~= report_of(all, staged, known@, purge));
        assert(known_now@ =~= externals(desired(all, staged, purge)));
        assert(previous_now@ =~= pending@.union(
            previous@.intersect(externals(kept(all, staged, purge))),
        ));
    }
    Pass { addresses, preserved, report, known: known_now, previous: previous_now, patch: dropped || added }
}

/// The reconciliation engine of one node.
pub struct Manager {
    node_name: String,
    dry_run: bool,
    remove_unapplied: bool,
    state: State,
    preserved: Vec<NodeAddress>,
    pending: IpSet,
    previous: IpSet,
    known: IpSet,
}

impl Manager {
    /// The name of the node.
    pub closed spec fn node_name(&self) -> Seq<char> {
        self.node_name@
    }

    /// Whether passes only compute and nothing is to be persisted.
    pub closed spec fn dry_run(&self) -> bool {
        self.dry_run
    }

    /// Whether external addresses that are not staged are taken off the node.
    pub closed spec fn remove_unstaged(&self) -> bool {
        self.remove_unapplied
    }

    /// Where the engine stands in its cycle.
    pub closed spec fn state(&self) -> State {
        self.state
    }

    /// The entries of the node's list that are no external addresses, as
    /// they were when the list was last seen.
    pub closed spec fn preserved(&self) -> Seq<NodeAddress> {
        self.preserved@
    }

    /// The addresses staged for the pending pass, in ascending order.
    pub closed spec fn staged(&self) -> Seq<IpLiteral> {
        self.pending.seq()
    }

    /// The external addresses that the engine put on the node in earlier
    /// passes and believes to be there still.
    pub closed spec fn previously_applied(&self) -> Set<IpLiteral> {
        self.previous@
    }

    /// The external addresses that the node had when its list was last seen
    /// or decided, in ascending order.
    pub closed spec fn known(&self) -> Seq<IpLiteral> {
        self.known.seq()
    }

    /// The external addresses on the node that the engine did not put there.
    pub open spec fn foreign(&self) -> Set<IpLiteral> {
        self.known().to_set().difference(self.previously_applied())
    }

    /// The node's list as the engine last knew it: the entries that are no
    /// external addresses, then the known external addresses.
    pub open spec fn cached(&self) -> Seq<NodeAddress> {
        self.preserved() + as_externals(self.known())
    }

    /// The engine's bookkeeping is consistent.
    pub closed spec fn wf(&self) -> bool {
        &&& self.node_name@.len() > 0
        &&& self.pending.wf()
        &&& self.previous.wf()
        &&& self.known.wf()
        &&& self.previous@.subset_of(self.known@)
        &&& (self.state is Staged <==> self.pending.seq().len() > 0)
        &&& forall|i: int| 0 <= i < self.preserved@.len() ==> !(#[trigger] self.preserved@[i] is External)
    }

    /// What holds of every well-formed engine.
    pub proof fn lemma_wf(&self)
        requires
            self.wf(),
        ensures
            self.node_name().len() > 0,
            ascending(self.staged()),
            ascending(self.known()),
            self.previously_applied().subset_of(self.known().to_set()),
            self.previously_applied().finite(),
            self.state() is Staged <==> self.staged().len() > 0,
            forall|i: int| 0 <= i < self.preserved().len() ==> !(#[trigger] self.preserved()[i] is External),
    {
        self.pending.lemma_seq();
        self.known.lemma_seq();
        self.previous.lemma_seq();
    }

    /// The engine is for the same node as `before` and knows of the node
    /// what `before` knew.
    pub open spec fn same_books(&self, before: &Manager) -> bool {
        &&& self.node_name() == before.node_name()
        &&& self.preserved() == before.preserved()
        &&& self.previously_applied() == before.previously_applied()
        &&& self.known() == before.known()
    }

    /// The list that a pass walks: the one that was just read from the node,
    /// or, in a dry run, the one that the engine last knew.
    pub open spec fn base_list(&self, live: Seq<NodeAddress>) -> Seq<NodeAddress> {
        if self.dry_run() {
            self.cached()
        } else {
            live
        }
    }

    /// What a pass over `live` with the addresses `staged` leaves behind:
    /// `plan` is what it decided, and `after` is the engine that was
    /// `self` before.
    pub open spec fn passed(
        &self,
        after: &Manager,
        live: Seq<NodeAddress>,
        staged: Seq<IpLiteral>,
        purge: bool,
        plan: Plan,
    ) -> bool {
        let base = self.base_list(live);
        &&& plan.addresses@ == desired(base, staged, purge)
        &&& plan.patch == patch_needed(base, staged, purge)
        &&& plan.dry_run == self.dry_run()
        &&& plan.report.wf()
        &&& plan.report@ == report_of(base, staged, self.known().to_set(), purge)
        &&& after.state() is Applied
        &&& after.staged() == Seq::<IpLiteral>::empty()
        &&& after.preserved() == non_externals(base)
        &&& after.known().to_set() == externals(desired(base, staged, purge))
        &&& after.previously_applied() == staged.to_set().union(
            self.previously_applied().intersect(externals(kept(base, staged, purge))),
        )
        &&& after.node_name() == self.node_name()
        &&& after.dry_run() == self.dry_run()
        &&& after.remove_unstaged() == self.remove_unstaged()
    }

    /// An engine for the node `node_name`, whose address list was just read
    /// as `live`. Nothing is staged and nothing counts as applied by the
    /// engine; the external addresses that the node has are known as foreign.
    pub fn new(node_name: String, live: Vec<NodeAddress>) -> (manager: Self)
        requires
            node_name@.len() > 0,
        ensures
            manager.wf(),
            manager.node_name() == node_name@,
            !manager.dry_run(),
            !manager.remove_unstaged(),
            manager.state() is Fresh,
            manager.staged() == Seq::<IpLiteral>::empty(),
            manager.previously_applied() == Set::<IpLiteral>::empty(),
            manager.known().to_set() == externals(live@),
            manager.preserved() == non_externals(live@),
    {
        let mut manager = Manager {
            node_name,
            dry_run: false,
            remove_unapplied: false,
            state: State::Fresh,
            preserved: Vec::new(),
            pending: IpSet::new(),
            previous: IpSet::new(),
            known: IpSet::new(),
        };
        manager.refresh(live);
        assert(manager.previously_applied() =~= Set::<IpLiteral>::empty());
        manager
    }

    /// The name of the node.
    pub fn name(&self) -> (name: &str)
        ensures
            name@ == self.node_name(),
    {
        self.node_name.as_str()
    }

    /// Whether passes only compute and nothing is to be persisted.
    pub fn is_dry_run(&self) -> (r: bool)
        ensures
            r == self.dry_run(),
    {
        self.dry_run
    }

    /// Whether external addresses that are not staged are taken off the node.
    pub fn removes_unstaged(&self) -> (r: bool)
        ensures
            r == self.remove_unstaged(),
    {
        self.remove_unapplied
    }

    /// Where the engine stands in its cycle.
    pub fn current_state(&self) -> (state: State)
        ensures
            state == self.state(),
    {
        self.state
    }

    /// The addresses staged for the pending pass, in ascending order.
    pub fn staged_addresses(&self) -> (staged: Vec<IpLiteral>)
        requires
            self.wf(),
        ensures
            staged@ == self.staged(),
    {
        self.pending.to_vec()
    }

    /// The external addresses that the engine put on the node and believes
    /// to be there still, in ascending order.
    pub fn applied_addresses(&self) -> (applied: Vec<IpLiteral>)
        requires
            self.wf(),
        ensures
            ascending(applied@),
            applied@.to_set() == self.previously_applied(),
    {
        proof {
            self.previous.lemma_seq();
        }
        self.previous.to_vec()
    }

    /// The external addresses on the node that the engine did not put
    /// there, in ascending order.
    pub fn foreign_addresses(&self) -> (foreign: Vec<IpLiteral>)
        requires
            self.wf(),
        ensures
            ascending(foreign@),
            foreign@.to_set() == self.foreign(),
    {
        let mut foreign: Vec<IpLiteral> = Vec::new();
        let n: usize = self.known.len();
        let mut i: usize = 0;
        proof {
            self.known.lemma_seq();
        }
        while i < n
            invariant
                self.wf(),
                n == self.known().len(),
                i <= n,
                ascending(self.known()),
                ascending(foreign@),
                forall|j: int|
                    0 <= j < foreign@.len() ==> self.known().subrange(0, i as int).contains(
                        #[trigger] foreign@[j],
                    ),
                forall|ip: IpLiteral|
                    foreign@.contains(ip) <==> (self.known().subrange(0, i as int).contains(ip)
                        && !self.previously_applied().contains(ip)),
            decreases n - i,
        {
            let ip = self.known.get(i);
            let ghost before = self.known().subrange(0, i as int);
            let ghost after = self.known().subrange(0, i + 1);
            let ghost listed = foreign@;
            proof {
                assert forall|other: IpLiteral| after.contains(other) <==> (before.contains(other) || other
                    == ip) by {
                    if after.contains(other) {
                        let j = choose|j: int| 0 <= j < after.len() && after[j] == other;
                        if j < i {
                            assert(before[j] == other);
                        }
                    }
                    if before.contains(other) {
                        let j = choose|j: int| 0 <= j < before.len() && before[j] == other;
                        assert(after[j] == other);
                    }
                    if other == ip {
                        assert(after[i as int] == other);
                    }
                }
            }
            if !self.previous.contains(&ip) {
                foreign.push(ip);
                proof {
                    assert forall|a: int, b: int| 0 <= a < b < foreign@.len() implies ip_lt(
                        #[trigger] foreign@[a],
                        #[trigger] foreign@[b],
                    ) by {
                        if b == listed.len() {
                            assert(before.contains(listed[a]));
                            let j = choose|j: int| 0 <= j < before.len() && before[j] == listed[a];
                            assert(ip_lt(self.known()[j], self.known()[i as int]));
                        } else {
                            assert(ip_lt(listed[a], listed[b]));
                        }
                    }
                    assert forall|other: IpLiteral| foreign@.contains(other) <==> (after.contains(other)
                        && !self.previously_applied().contains(other)) by {
                        if foreign@.contains(other) {
                            let j = choose|j: int| 0 <= j < foreign@.len() && foreign@[j] == other;
                            if j < listed.len() {
                                assert(listed[j] == other);
                                assert(listed.contains(other));
                            }
                        }
                        if listed.contains(other) {
                            let j = choose|j: int| 0 <= j < listed.len() && listed[j] == other;
                            assert(foreign@[j] == other);
                        }
                        if other == ip {
                            assert(foreign@[listed.len() as int] == other);
                        }
                    }
                }
            }
            proof {
                assert forall|j: int| 0 <= j < foreign@.len() implies after.contains(#[trigger] foreign@[j]) by {
                    if j < listed.len() {
                        assert(before.contains(listed[j]));
                    }
                }
            }
            i = i + 1;
        }
        proof {
            assert(self.known().subrange(0, n as int) =~= self.known());
            assert(foreign@.to_set() =~= self.foreign());
        }
        foreign
    }

    /// The node's list as the engine last knew it.
    pub fn cached_list(&self) -> (list: Vec<NodeAddress>)
        requires
            self.wf(),
        ensures
            list@ == self.cached(),
    {
        let mut list: Vec<NodeAddress> = Vec::new();
        let mut i: usize = 0;
        while i < self.preserved.len()
            invariant
                i <= self.preserved@.len(),
                list@ == self.preserved@.subrange(0, i as int),
            decreases self.preserved@.len() - i,
        {
            list.push(self.preserved[i].duplicate());
            assert(list@ =~= self.preserved@.subrange(0, i + 1));
            i = i + 1;
        }
        assert(list@ =~= self.preserved@);
        let n: usize = self.known.len();
        let mut k: usize = 0;
        while k < n
            invariant
                self.wf(),
                n == self.known.seq().len(),
                k <= n,
                list@ == self.preserved@ + as_externals(self.known.seq().subrange(0, k as int)),
            decreases n - k,
        {
            list.push(NodeAddress::External(self.known.get(k)));
            assert(list@ =~= self.preserved@ + as_externals(self.known.seq().subrange(0, k + 1)));
            k = k + 1;
        }
        assert(self.known.seq().subrange(0, n as int) =~= self.known.seq());
        list
    }

    /// Changes whether the node addresses changing patch application
    /// should be mocked or not.
    pub fn set_dry_run(&mut self, dry_run: bool) -> (manager: &mut Self)
        ensures
            manager.dry_run() == dry_run,
            manager.remove_unstaged() == old(self).remove_unstaged(),
            manager.same_books(old(self)),
            manager.staged() == old(self).staged(),
            manager.state() == old(self).state(),
            old(self).wf() ==> manager.wf(),
            *final(self) == *final(manager),
    {
        self.dry_run = dry_run;
        self
    }

    /// Changes whether the current addresses attached to the node should
    /// be removed if they were not provided by [`Self::stage_address`].
    pub fn set_remove_unstaged(&mut self, remove_unstaged: bool) -> (manager: &mut Self)
        ensures
            manager.remove_unstaged() == remove_unstaged,
            manager.dry_run() == old(self).dry_run(),
            manager.same_books(old(self)),
            manager.staged() == old(self).staged(),
            manager.state() == old(self).state(),
            old(self).wf() ==> manager.wf(),
            *final(self) == *final(manager),
    {
        self.remove_unapplied = remove_unstaged;
        self
    }

    /// Queues (stages) the given address to add to the node as ExternalIP.
    /// You have to call [`Self::apply`] to apply the changes.
    pub fn stage_address(&mut self, addr: &IpLiteral) -> (manager: &mut Self)
        requires
            old(self).wf(),
        ensures
            manager.wf(),
            manager.state() is Staged,
            manager.staged().to_set() == old(self).staged().to_set().insert(*addr),
            manager.dry_run() == old(self).dry_run(),
            manager.remove_unstaged() == old(self).remove_unstaged(),
            manager.same_books(old(self)),
            *final(self) == *final(manager),
    {
        proof {
            self.pending.lemma_seq();
        }
        self.pending.insert(*addr).discard();
        self.state = State::Staged;
        proof {
            self.pending.lemma_seq();
            assert(self.pending@.contains(*addr));
            if self.pending.seq().len() == 0 {
                assert(self.pending.seq().to_set().contains(*addr));
            }
        }
        self
    }

    /// Takes over the node's address list as it was just read: the entries
    /// that are no external addresses are kept as they are; an address that
    /// counted as applied by the engine and is no longer on the node is
    /// forgotten; the other external addresses on the node are known as
    /// foreign. Nothing is staged afterwards.
    pub fn refresh(&mut self, live: Vec<NodeAddress>)
        requires
            old(self).wf(),
        ensures
            final(self).wf(),
            final(self).state() is Fresh,
            final(self).staged() == Seq::<IpLiteral>::empty(),
            final(self).preserved() == non_externals(live@),
            final(self).known().to_set() == externals(live@),
            final(self).previously_applied() == old(self).previously_applied().intersect(externals(live@)),
            final(self).node_name() == old(self).node_name(),
            final(self).dry_run() == old(self).dry_run(),
            final(self).remove_unstaged() == old(self).remove_unstaged(),
    {
        let ghost all = live@;
        let mut preserved: Vec<NodeAddress> = Vec::new();
        let mut known = IpSet::new();
        let mut previous = IpSet::new();
        for entry in it: live.into_iter()
            invariant
                it.seq() == all,
                self.previous.wf(),
                self.previous == old(self).previous,
                preserved@ == non_externals(all.subrange(0, it.index() as int)),
                forall|i: int| 0 <= i < preserved@.len() ==> !(#[trigger] preserved@[i] is External),
                known.wf(),
                known@ == externals(all.subrange(0, it.index() as int)),
                previous.wf(),
                previous@ == self.previous@.intersect(known@),
        {
            let ghost prefix = all.subrange(0, it.index() as int);
            let ghost longer = all.subrange(0, it.index() + 1);
            proof {
                assert(longer.drop_last() =~= prefix);
                assert(longer =~= prefix.push(entry));
                lemma_externals_push(prefix, entry);
            }
            match entry {
                NodeAddress::Other { .. } => {
                    preserved.push(entry);
                },
                NodeAddress::External(ip) => {
                    known.insert(ip).discard();
                    if self.previous.contains(&ip) {
                        previous.insert(ip).discard();
                    }
                    assert(previous@ =~= self.previous@.intersect(known@));
                },
            }
        }
        proof {
            assert(all.subrange(0, all.len() as int) =~= all);
            known.lemma_seq();
        }
        self.preserved = preserved;
        self.known = known;
        self.previous = previous;
        self.pending = IpSet::new();
        self.state = State::Fresh;
    }

    /// Whether a pass can be made: it is refused where no addresses are
    /// staged and removing the unstaged ones is not requested. A caller asks
    /// this before it reads the node, so that nothing is asked of the
    /// cluster for a pass that is refused.
    pub fn check_staged(&self) -> (result: Result<(), ApplyError>)
        requires
            self.wf(),
        ensures
            result == if self.staged().len() == 0 && !self.remove_unstaged() {
                Err::<(), ApplyError>(ApplyError::NothingStaged)
            } else {
                Ok::<(), ApplyError>(())
            },
    {
        proof {
            self.pending.lemma_seq();
        }
        if self.pending.is_empty() && !self.remove_unapplied {
            Err(ApplyError::NothingStaged)
        } else {
            Ok(())
        }
    }

    /// Applies all the staged changes: decides the addresses that the node
    /// is to have, given the list `live` that was just read from it, and
    /// says how each address was treated. In a dry run `live` is not looked
    /// at, and the list that the engine last knew stands in for it.
    ///
    /// An error is returned if no addresses are staged and removing unapplied
    /// is not requested, thus preventing you from removing all ExternalIP
    /// addresses of node accidentally.
    pub fn apply(&mut self, live: Vec<NodeAddress>) -> (result: Result<Plan, ApplyError>)
        requires
            old(self).wf(),
        ensures
            final(self).wf(),
            result is Err <==> (old(self).staged().len() == 0 && !old(self).remove_unstaged()),
            match result {
                Ok(plan) => old(self).passed(
                    final(self),
                    live@,
                    old(self).staged(),
                    old(self).remove_unstaged(),
                    plan,
                ),
                Err(error) => error == ApplyError::NothingStaged && *final(self) == *old(self),
            },
    {
        match self.check_staged() {
            Ok(_) => {},
            Err(error) => {
                return Err(error);
            },
        }
        let purge: bool = self.remove_unapplied;
        let plan = self.pass(live, purge);
        Ok(plan)
    }

    /// Takes every external address off the node: a pass with nothing staged
    /// that removes what is not staged, whatever the engine is set to. What
    /// was staged is dropped. Hands back the decision together with the
    /// addresses that are removed, in ascending order.
    pub fn purge_unstaged(&mut self, live: Vec<NodeAddress>) -> (result: (Plan, Vec<IpLiteral>))
        requires
            old(self).wf(),
        ensures
            final(self).wf(),
            old(self).passed(final(self), live@, Seq::<IpLiteral>::empty(), true, result.0),
            ascending(result.1@),
            result.1@.to_set() == externals(old(self).base_list(live@)),
            forall|ip: IpLiteral| #[trigger]
                result.1@.contains(ip) <==> (result.0.report@.contains_key(ip) && result.0.report@[ip]
                    is Removed),
    {
        self.pending = IpSet::new();
        if self.state.is_staged() {
            self.state = State::Fresh;
        }
        let plan = self.pass(live, true);
        let mut removed: Vec<IpLiteral> = Vec::new();
        let n: usize = plan.report.len();
        let mut i: usize = 0;
        let ghost base = old(self).base_list(live@);
        proof {
            assert(Seq::<IpLiteral>::empty().to_set() =~= Set::<IpLiteral>::empty());
        }
        while i < n
            invariant
                plan.report.wf(),
                n == plan.report.entries().len(),
                i <= n,
                plan.report@ == report_of(base, Seq::<IpLiteral>::empty(), old(self).known().to_set(), true),
                removed@.len() == i,
                forall|j: int| 0 <= j < i ==> removed@[j] == (#[trigger] plan.report.entries()[j]).0,
            decreases n - i,
        {
            let ip = plan.report.key_at(i);
            removed.push(ip);
            i = i + 1;
        }
        proof {
            let s = plan.report.entries();
            assert forall|a: int, b: int| 0 <= a < b < removed@.len() implies ip_lt(
                #[trigger] removed@[a],
                #[trigger] removed@[b],
            ) by {
                assert(ip_lt(s[a].0, s[b].0));
            }
            assert forall|ip: IpLiteral| removed@.contains(ip) <==> plan.report@.contains_key(ip) by {
                if removed@.contains(ip) {
                    let j = choose|j: int| 0 <= j < removed@.len() && removed@[j] == ip;
                    lemma_entry_is_mapped(s, j);
                }
                if plan.report@.contains_key(ip) {
                    let j = choose|j: int| 0 <= j < s.len() && (#[trigger] s[j]).0 == ip;
                    assert(removed@[j] == ip);
                }
            }
            assert(removed@.to_set() =~= externals(base));
        }
        (plan, removed)
    }

    /// The external addresses of the list that the engine last knew are the
    /// known ones.
    pub proof fn lemma_cached_externals(&self)
        requires
            self.wf(),
        ensures
            externals(self.cached()) == self.known().to_set(),
    {
        let list = self.cached();
        let known = self.known();
        assert forall|ip: IpLiteral| externals(list).contains(ip) <==> known.to_set().contains(ip) by {
            let wanted = NodeAddress::External(ip);
            if list.contains(wanted) {
                let i = choose|i: int| 0 <= i < list.len() && list[i] == wanted;
                if i < self.preserved().len() {
                    assert(self.preserved@[i] == wanted);
                } else {
                    assert(as_externals(known)[i - self.preserved().len()] == wanted);
                    assert(known[i - self.preserved().len()] == ip);
                }
            }
            if known.contains(ip) {
                let i = choose|i: int| 0 <= i < known.len() && known[i] == ip;
                assert(list[self.preserved().len() + i] == wanted);
            }
        }
        assert(externals(list) =~= known.to_set());
    }

    /// A second pass sends no second patch. Let a pass have taken `self` to
    /// `after` and decided `plan`; let the same addresses be staged again,
    /// which gives `restaged`; and let the node have the external addresses
    /// that were decided. Then the next pass has nothing to send, dry run or
    /// not.
    pub proof fn lemma_second_pass_needs_no_patch(
        &self,
        after: &Manager,
        restaged: &Manager,
        live: Seq<NodeAddress>,
        plan: Plan,
        next_live: Seq<NodeAddress>,
    )
        requires
            self.wf(),
            after.wf(),
            restaged.wf(),
            self.passed(after, live, self.staged(), self.remove_unstaged(), plan),
            restaged.same_books(after),
            restaged.dry_run() == after.dry_run(),
            restaged.remove_unstaged() == after.remove_unstaged(),
            restaged.staged().to_set() == self.staged().to_set(),
            externals(next_live) == externals(plan.addresses@),
        ensures
            restaged.staged() == self.staged(),
            !patch_needed(restaged.base_list(next_live), restaged.staged(), restaged.remove_unstaged()),
    {
        self.lemma_wf();
        restaged.lemma_wf();
        lemma_ascending_unique(restaged.staged(), self.staged());
        restaged.lemma_cached_externals();
        lemma_settled_needs_no_patch(
            self.base_list(live),
            self.staged(),
            self.remove_unstaged(),
            restaged.base_list(next_live),
        );
    }

    /// One pass over the node's list with what is staged.
    fn pass(&mut self, live: Vec<NodeAddress>, purge: bool) -> (plan: Plan)
        requires
            old(self).wf(),
        ensures
            final(self).wf(),
            old(self).passed(final(self), live@, old(self).staged(), purge, plan),
    {
        let base = if self.dry_run {
            self.cached_list()
        } else {
            live
        };
        proof {
            self.pending.lemma_seq();
            self.known.lemma_seq();
        }
        let pass = reconcile(base, &self.pending, &self.previous, &self.known, purge);
        proof {
            pass.known.lemma_seq();
            lemma_desired_externals(base@, self.pending.seq(), purge);
            assert forall|ip: IpLiteral| pass.previous@.contains(ip) implies pass.known@.contains(ip) by {
                if !self.pending@.contains(ip) {
                    assert(externals(kept(base@, self.pending.seq(), purge)).contains(ip));
                } else {
                    assert(self.pending.seq().to_set().contains(ip));
                    assert(self.pending.seq().contains(ip));
                }
            }
        }
        self.pending = IpSet::new();
        self.previous = pass.previous;
        self.known = pass.known;
        self.preserved = pass.preserved;
        self.state = State::Applied;
        Plan { addresses: pass.addresses, patch: pass.patch, dry_run: self.dry_run, report: pass.report }
    }

    /// Returns the ExternalIP addresses of the list `live`, which was just
    /// read from the Node the [`Manager`] controls, one for each entry that
    /// spells an address and in the order of the list.
    pub fn query_current_addresses(&self, live: &Vec<RawAddress>) -> (current: Vec<IpLiteral>)
        ensures
            current@ == current_addresses(live@),
    {
        let mut current: Vec<IpLiteral> = Vec::new();
        let mut i: usize = 0;
        while i < live.len()
            invariant
                i <= live@.len(),
                current@ == current_addresses(live@.subrange(0, i as int)),
            decreases live@.len() - i,
        {
            proof {
                assert(live@.subrange(0, i + 1).drop_last() =~= live@.subrange(0, i as int));
            }
            if is_external_ip(&live[i]) {
                match parse_ip(&live[i]) {
                    Some(ip) => current.push(ip),
                    None => {},
                }
            }
            i = i + 1;
        }
        assert(live@.subrange(0, i as int) =~= live@);
        current
    }
}

} // verus!
