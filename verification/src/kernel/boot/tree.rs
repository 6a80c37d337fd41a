//! Which device trees can be read: a walk over the structure of a tree, token by
//! token, that refuses whatever a reader would stumble over.

use vstd::prelude::*;

use super::devicetree;
use super::devicetree::load_tree;
use crate::kernel::trap::syscalls::decode_utf8;

verus! {

/// The token with which a node begins.
pub const BEGIN_NODE: u32 = 1;

/// The token with which a node ends.
pub const END_NODE: u32 = 2;

/// The token with which a property begins.
pub const PROPERTY: u32 = 3;

/// The token that stands for nothing.
pub const NOP: u32 = 4;

/// The token with which the structure ends.
pub const END: u32 = 5;

/// How deep nodes can be nested.
pub const MAX_DEPTH: usize = 63;

/// What a node is, as far as it matters.
#[derive(Copy, Clone, Debug, PartialEq, Eq, Structural)]
pub enum NodeKind {
    /// The node that holds all others.
    Root,
    /// The other names of nodes.
    Aliases,
    /// What the firmware has chosen.
    Chosen,
    /// The memory.
    Memory,
    /// The harts.
    Cpus,
    /// A hart.
    Cpu,
    /// Anything else.
    Other,
}

/// What the properties of a node say, as far as it matters.
#[derive(Copy, Clone, Debug, PartialEq, Eq, Structural)]
pub struct Properties {
    /// How many words an address has in the nodes below.
    pub address_cells: u32,
    /// How many words a size has in the nodes below.
    pub size_cells: u32,
    /// How long the first list of registers is.
    pub reg: Option<usize>,
    /// How long the first frequency of the time register is.
    pub timebase: Option<usize>,
}

/// A node that has begun.
#[derive(Copy, Clone, Debug, PartialEq, Eq, Structural)]
pub struct Frame {
    pub kind: NodeKind,
    pub properties: Properties,
    /// Whether there were nodes in it.
    pub has_nodes: bool,
    /// Whether there were tokens in it that stand for nothing: only its end can
    /// follow.
    pub has_nops: bool,
}

/// How far the walk has come.
#[verifier::ext_equal]
pub struct Walk {
    /// Where the next token is.
    pub at: int,
    /// The nodes that have begun, the innermost last.
    pub open: Seq<Frame>,
    /// Whether the root has ended.
    pub closed: bool,
    pub has_chosen: bool,
    pub has_memory: bool,
    pub has_cpus: bool,
}

/// What a token does to the walk.
#[verifier::ext_equal]
pub enum Step {
    /// It cannot stand here.
    Refused,
    /// The walk is over.
    Over,
    /// The walk goes on.
    On(Walk),
}

/// The first place from `i` on that holds `x`; the end if there is none.
pub open spec fn find(b: Seq<u8>, x: u8, i: int) -> int
    decreases b.len() - i,
{
    if i >= b.len() || b[i] == x {
        i
    } else {
        find(b, x, i + 1)
    }
}

/// The least multiple of four that is not below `n`.
pub open spec fn padded(n: int) -> int {
    (n + 3) / 4 * 4
}

/// The name of a node without its address.
pub open spec fn base_name(name: Seq<u8>) -> Seq<u8> {
    name.take(find(name, 0x40, 0))
}

/// The name `aliases`.
pub open spec fn name_aliases() -> Seq<u8> {
    seq![0x61, 0x6c, 0x69, 0x61, 0x73, 0x65, 0x73]
}

/// The name `chosen`.
pub open spec fn name_chosen() -> Seq<u8> {
    seq![0x63, 0x68, 0x6f, 0x73, 0x65, 0x6e]
}

/// The name `memory`.
pub open spec fn name_memory() -> Seq<u8> {
    seq![0x6d, 0x65, 0x6d, 0x6f, 0x72, 0x79]
}

/// The name `cpus`.
pub open spec fn name_cpus() -> Seq<u8> {
    seq![0x63, 0x70, 0x75, 0x73]
}

/// The name `cpu`.
pub open spec fn name_cpu() -> Seq<u8> {
    seq![0x63, 0x70, 0x75]
}

/// The name `#address-cells`.
pub open spec fn name_address_cells() -> Seq<u8> {
    seq![0x23, 0x61, 0x64, 0x64, 0x72, 0x65, 0x73, 0x73, 0x2d, 0x63, 0x65, 0x6c, 0x6c, 0x73]
}

/// The name `#size-cells`.
pub open spec fn name_size_cells() -> Seq<u8> {
    seq![0x23, 0x73, 0x69, 0x7a, 0x65, 0x2d, 0x63, 0x65, 0x6c, 0x6c, 0x73]
}

/// The name `reg`.
pub open spec fn name_reg() -> Seq<u8> {
    seq![0x72, 0x65, 0x67]
}

/// The name `timebase-frequency`.
pub open spec fn name_timebase() -> Seq<u8> {
    seq![
        0x74, 0x69, 0x6d, 0x65, 0x62, 0x61, 0x73, 0x65, 0x2d,
        0x66, 0x72, 0x65, 0x71, 0x75, 0x65, 0x6e, 0x63, 0x79,
    ]
}

/// The name `stdout-path`.
pub open spec fn name_stdout() -> Seq<u8> {
    seq![0x73, 0x74, 0x64, 0x6f, 0x75, 0x74, 0x2d, 0x70, 0x61, 0x74, 0x68]
}

/// What a node is, given the node that it is in and its name.
pub open spec fn kind_in(parent: NodeKind, name: Seq<u8>) -> NodeKind {
    let base = base_name(name);
    if parent is Root && base == name_aliases() {
        NodeKind::Aliases
    } else if parent is Root && base == name_chosen() {
        NodeKind::Chosen
    } else if parent is Root && base == name_memory() {
        NodeKind::Memory
    } else if parent is Root && base == name_cpus() {
        NodeKind::Cpus
    } else if parent is Cpus && base == name_cpu() {
        NodeKind::Cpu
    } else {
        NodeKind::Other
    }
}

/// A node that has just begun: unless it says so, an address has two words and a
/// size has one.
pub open spec fn begun(kind: NodeKind) -> Frame {
    Frame {
        kind,
        properties: Properties { address_cells: 2, size_cells: 1, reg: None, timebase: None },
        has_nodes: false,
        has_nops: false,
    }
}

/// A node begins here: its name ends and is text, it is not nested too deeply,
/// and the root has no name.
pub open spec fn begin(b: Seq<u8>, w: Walk) -> Step {
    let start = w.at + 4;
    let end = find(b, 0, start);
    let name = b.subrange(start, end);
    let depth = w.open.len() as int;
    if end >= b.len() || !vstd::utf8::valid_utf8(name) || depth >= MAX_DEPTH {
        Step::Refused
    } else if depth == 0 {
        if base_name(name).len() > 0 {
            Step::Refused
        } else {
            Step::On(
                Walk {
                    at: start + padded(end - start + 1),
                    open: seq![begun(NodeKind::Root)],
                    ..w
                },
            )
        }
    } else if w.open.last().has_nops {
        Step::Refused
    } else {
        let parent = Frame { has_nodes: true, ..w.open.last() };
        let kind = kind_in(parent.kind, name);
        Step::On(
            Walk {
                at: start + padded(end - start + 1),
                open: w.open.update(depth - 1, parent).push(begun(kind)),
                has_chosen: w.has_chosen || kind is Chosen,
                has_memory: w.has_memory || kind is Memory,
                has_cpus: w.has_cpus || kind is Cpus,
                ..w
            },
        )
    }
}

/// A node once it has one more property; nothing if the property cannot be.
///
/// The words of addresses and sizes are numbers, and where output goes is not
/// empty. An alias is no path and stands for a path, so that no alias stands for
/// another one.
pub open spec fn with_property(f: Frame, name: Seq<u8>, value: Seq<u8>) -> Option<Frame> {
    let p = f.properties;
    if f.kind is Aliases && (name.len() > 0 && name[0] == 0x2f || value.len() > 0 && value[0]
        != 0x2f) {
        None
    } else if name == name_address_cells() {
        if value.len() < 4 {
            None
        } else {
            Some(
                Frame {
                    properties: Properties {
                        address_cells: devicetree::be32(value, 0) as u32,
                        ..p
                    },
                    ..f
                },
            )
        }
    } else if name == name_size_cells() {
        if value.len() < 4 {
            None
        } else {
            Some(
                Frame {
                    properties: Properties { size_cells: devicetree::be32(value, 0) as u32, ..p },
                    ..f
                },
            )
        }
    } else if name == name_reg() && p.reg is None {
        Some(Frame { properties: Properties { reg: Some(value.len() as usize), ..p }, ..f })
    } else if name == name_timebase() && p.timebase is None {
        Some(Frame { properties: Properties { timebase: Some(value.len() as usize), ..p }, ..f })
    } else if name == name_stdout() && value.len() == 0 {
        None
    } else {
        Some(f)
    }
}

/// A property is here: it comes before the nodes, its value is all there, and its
/// name is in the block of names, ends and is text.
pub open spec fn property(b: Seq<u8>, names: Seq<u8>, w: Walk) -> Step {
    let depth = w.open.len() as int;
    if depth == 0 || w.open.last().has_nodes || w.open.last().has_nops || w.at + 12 > b.len() {
        Step::Refused
    } else {
        let len = devicetree::be32(b, w.at + 4);
        let from = devicetree::be32(b, w.at + 8);
        let to = find(names, 0, from);
        let name = names.subrange(from, to);
        if w.at + 12 + len > b.len() || to >= names.len() || !vstd::utf8::valid_utf8(name) {
            Step::Refused
        } else {
            match with_property(w.open.last(), name, b.subrange(w.at + 12, w.at + 12 + len)) {
                Some(f) => Step::On(
                    Walk { at: w.at + 12 + padded(len), open: w.open.update(depth - 1, f), ..w },
                ),
                None => Step::Refused,
            }
        }
    }
}

/// Whether a frequency of the time register has a length that it can have.
pub open spec fn is_frequency(len: Option<usize>) -> bool {
    len == Some(4usize) || len == Some(8usize)
}

/// Whether the innermost node says all that it has to. Addresses and sizes have
/// no more than two words in the root. Memory has registers. A hart has a number
/// of one or two words, and it or what it is in has the frequency of the time
/// register.
pub open spec fn complete(open: Seq<Frame>) -> bool {
    let p = open.last().properties;
    match open.last().kind {
        NodeKind::Root => p.address_cells <= 2 && p.size_cells <= 2,
        NodeKind::Memory => p.reg is Some,
        NodeKind::Cpu => {
            let cpus = open[open.len() - 2].properties;
            &&& p.reg matches Some(len) && ((cpus.address_cells == 1 && len >= 4) || (
            cpus.address_cells == 2 && len >= 8))
            &&& if p.timebase is Some {
                is_frequency(p.timebase)
            } else {
                is_frequency(cpus.timebase)
            }
        },
        _ => true,
    }
}

/// A node ends here.
pub open spec fn end(w: Walk) -> Step {
    if w.open.len() == 0 || !complete(w.open) {
        Step::Refused
    } else {
        Step::On(
            Walk { at: w.at + 4, open: w.open.drop_last(), closed: w.open.len() == 1, ..w },
        )
    }
}

/// A token that stands for nothing is here.
pub open spec fn nop(w: Walk) -> Step {
    let depth = w.open.len() as int;
    let open = if depth == 0 {
        w.open
    } else {
        w.open.update(depth - 1, Frame { has_nops: true, ..w.open.last() })
    };
    Step::On(Walk { at: w.at + 4, open, ..w })
}

/// What the next token does.
pub open spec fn step(b: Seq<u8>, names: Seq<u8>, w: Walk) -> Step {
    if w.at + 4 > b.len() {
        Step::Refused
    } else {
        let token = devicetree::be32(b, w.at);
        if token == NOP {
            nop(w)
        } else if w.closed {
            if token == END {
                Step::Over
            } else {
                Step::Refused
            }
        } else if token == BEGIN_NODE {
            begin(b, w)
        } else if token == PROPERTY {
            property(b, names, w)
        } else if token == END_NODE {
            end(w)
        } else {
            Step::Refused
        }
    }
}

/// Whether the walk comes to the end of the structure, having found what the
/// firmware has chosen, memory and harts.
pub open spec fn walks(b: Seq<u8>, names: Seq<u8>, w: Walk) -> bool
    decreases b.len() - w.at,
{
    match step(b, names, w) {
        Step::Refused => false,
        Step::Over => w.has_chosen && w.has_memory && w.has_cpus,
        Step::On(next) => w.at < next.at <= b.len() && walks(b, names, next),
    }
}

/// The walk before the first token.
pub open spec fn first() -> Walk {
    Walk {
        at: 0,
        open: Seq::empty(),
        closed: false,
        has_chosen: false,
        has_memory: false,
        has_cpus: false,
    }
}

/// The block of a tree whose place and size are in its header.
pub open spec fn block(data: Seq<u8>, place: int, size: int) -> Seq<u8> {
    let start = devicetree::be32(data, place);
    data.subrange(start, start + devicetree::be32(data, size))
}

/// Whether the bytes of a device tree can be read: they are one tree, its two
/// blocks lie in it, and its structure can be walked over. Addresses of a tree
/// have 64 bits, and so has a word of the machine that reads it.
pub open spec fn tree_wf(data: Seq<u8>) -> bool {
    &&& usize::BITS == 64
    &&& devicetree::stated_size(data) matches Ok(size) && size == data.len()
    &&& devicetree::be32(data, 8) + devicetree::be32(data, 36) <= data.len()
    &&& devicetree::be32(data, 12) + devicetree::be32(data, 32) <= data.len()
    &&& walks(block(data, 8, 36), block(data, 12, 32), first())
}

/// The 32-bit big-endian number at `at`.
fn read32(b: &[u8], at: usize) -> (r: u32)
    requires
        at + 4 <= b@.len(),
    ensures
        r == devicetree::be32(b@, at as int),
{
    (b[at] as u32) * 0x100_0000 + (b[at + 1] as u32) * 0x1_0000 + (b[at + 2] as u32) * 0x100 + (
    b[at + 3] as u32)
}

/// Find the first place from `from` on that holds `x`.
fn find_byte(b: &[u8], x: u8, from: usize) -> (r: usize)
    requires
        from <= b@.len(),
    ensures
        r == find(b@, x, from as int),
        from <= r <= b@.len(),
{
    let mut i: usize = from;
    while i < b.len() && b[i] != x
        invariant
            from <= i <= b@.len(),
            find(b@, x, from as int) == find(b@, x, i as int),
        decreases b@.len() - i,
    {
        i += 1;
    }
    i
}

/// Whether the bytes are a name.
fn is_name(b: &[u8], name: &Vec<u8>) -> (r: bool)
    ensures
        r == (b@ == name@),
{
    if b.len() != name.len() {
        return false;
    }
    let mut i: usize = 0;
    while i < b.len()
        invariant
            i <= b@.len() == name@.len(),
            forall|j: int| 0 <= j < i ==> b@[j] == name@[j],
        decreases b@.len() - i,
    {
        if b[i] != name[i] {
            return false;
        }
        i += 1;
    }
    assert(b@ =~= name@);
    true
}

/// Whether the bytes are text.
fn is_text(b: &[u8]) -> (r: bool)
    ensures
        r == vstd::utf8::valid_utf8(b@),
{
    let mut bytes: Vec<u8> = Vec::new();
    let mut i: usize = 0;
    while i < b.len()
        invariant
            i <= b@.len(),
            bytes@ == b@.take(i as int),
        decreases b@.len() - i,
    {
        bytes.push(b[i]);
        i += 1;
        assert(bytes@ =~= b@.take(i as int));
    }
    assert(bytes@ =~= b@);
    decode_utf8(bytes).is_some()
}

/// What a node is, given the node that it is in and its name.
fn node_kind(parent: NodeKind, name: &[u8]) -> (r: NodeKind)
    ensures
        r == kind_in(parent, name@),
{
    let at: usize = find_byte(name, 0x40, 0);
    let base: &[u8] = vstd::slice::slice_subrange(name, 0, at);
    assert(base@ =~= base_name(name@));
    let aliases: Vec<u8> = vec![0x61, 0x6c, 0x69, 0x61, 0x73, 0x65, 0x73];
    let chosen: Vec<u8> = vec![0x63, 0x68, 0x6f, 0x73, 0x65, 0x6e];
    let memory: Vec<u8> = vec![0x6d, 0x65, 0x6d, 0x6f, 0x72, 0x79];
    let cpus: Vec<u8> = vec![0x63, 0x70, 0x75, 0x73];
    let cpu: Vec<u8> = vec![0x63, 0x70, 0x75];
    assert(aliases@ =~= name_aliases());
    assert(chosen@ =~= name_chosen());
    assert(memory@ =~= name_memory());
    assert(cpus@ =~= name_cpus());
    assert(cpu@ =~= name_cpu());
    if parent == NodeKind::Root {
        if is_name(base, &aliases) {
            NodeKind::Aliases
        } else if is_name(base, &chosen) {
            NodeKind::Chosen
        } else if is_name(base, &memory) {
            NodeKind::Memory
        } else if is_name(base, &cpus) {
            NodeKind::Cpus
        } else {
            NodeKind::Other
        }
    } else if parent == NodeKind::Cpus && is_name(base, &cpu) {
        NodeKind::Cpu
    } else {
        NodeKind::Other
    }
}

/// A node once it has one more property; nothing if the property cannot be.
fn add_property(f: Frame, name: &[u8], value: &[u8]) -> (r: Option<Frame>)
    ensures
        r == with_property(f, name@, value@),
{
    let address_cells: Vec<u8> = vec![
        0x23, 0x61, 0x64, 0x64, 0x72, 0x65, 0x73, 0x73, 0x2d, 0x63, 0x65, 0x6c, 0x6c, 0x73,
    ];
    let size_cells: Vec<u8> = vec![
        0x23, 0x73, 0x69, 0x7a, 0x65, 0x2d, 0x63, 0x65, 0x6c, 0x6c, 0x73,
    ];
    let reg: Vec<u8> = vec![0x72, 0x65, 0x67];
    let timebase: Vec<u8> = vec![
        0x74, 0x69, 0x6d, 0x65, 0x62, 0x61, 0x73, 0x65, 0x2d,
        0x66, 0x72, 0x65, 0x71, 0x75, 0x65, 0x6e, 0x63, 0x79,
    ];
    let stdout: Vec<u8> = vec![0x73, 0x74, 0x64, 0x6f, 0x75, 0x74, 0x2d, 0x70, 0x61, 0x74, 0x68];
    assert(address_cells@ =~= name_address_cells());
    assert(size_cells@ =~= name_size_cells());
    assert(reg@ =~= name_reg());
    assert(timebase@ =~= name_timebase());
    assert(stdout@ =~= name_stdout());
    let mut f = f;
    if f.kind == NodeKind::Aliases && ((name.len() > 0 && name[0] == 0x2f) || (value.len() > 0
        && value[0] != 0x2f)) {
        return None;
    }
    if is_name(name, &address_cells) {
        if value.len() < 4 {
            return None;
        }
        f.properties.address_cells = read32(value, 0);
    } else if is_name(name, &size_cells) {
        if value.len() < 4 {
            return None;
        }
        f.properties.size_cells = read32(value, 0);
    } else if is_name(name, &reg) && f.properties.reg.is_none() {
        f.properties.reg = Some(value.len());
    } else if is_name(name, &timebase) && f.properties.timebase.is_none() {
        f.properties.timebase = Some(value.len());
    } else if is_name(name, &stdout) && value.len() == 0 {
        return None;
    }
    Some(f)
}

/// Whether a frequency of the time register has a length that it can have.
fn has_frequency(len: Option<usize>) -> (r: bool)
    ensures
        r == is_frequency(len),
{
    match len {
        Some(len) => len == 4 || len == 8,
        None => false,
    }
}

/// Whether the innermost node says all that it has to.
fn is_complete(open: &Vec<Frame>) -> (r: bool)
    requires
        open@.len() > 0,
        open@.last().kind is Cpu ==> open@.len() > 1,
    ensures
        r == complete(open@),
{
    let f = open[open.len() - 1];
    let p = f.properties;
    match f.kind {
        NodeKind::Root => p.address_cells <= 2 && p.size_cells <= 2,
        NodeKind::Memory => p.reg.is_some(),
        NodeKind::Cpu => {
            let cpus = open[open.len() - 2].properties;
            let numbered: bool = match p.reg {
                Some(len) => (cpus.address_cells == 1 && len >= 4) || (cpus.address_cells == 2
                    && len >= 8),
                None => false,
            };
            numbered && if p.timebase.is_some() {
                has_frequency(p.timebase)
            } else {
                has_frequency(cpus.timebase)
            }
        },
        _ => true,
    }
}

/// A walk over the structure of a tree.
struct Walker {
    at: usize,
    open: Vec<Frame>,
    closed: bool,
    has_chosen: bool,
    has_memory: bool,
    has_cpus: bool,
}

impl Walker {
    /// How far the walk has come.
    closed spec fn view(&self) -> Walk {
        Walk {
            at: self.at as int,
            open: self.open@,
            closed: self.closed,
            has_chosen: self.has_chosen,
            has_memory: self.has_memory,
            has_cpus: self.has_cpus,
        }
    }

    /// The walk has not left the structure, and harts are in a node.
    closed spec fn wf(&self, b: Seq<u8>) -> bool {
        &&& self.at <= b.len()
        &&& self.open@.len() > 0 ==> self.open@[0].kind is Root
        &&& forall|i: int| 0 < i < self.open@.len() ==> !((#[trigger] self.open@[i]).kind is Root)
    }

    /// Move on by `n` bytes, rounded up to whole words; whether there are so
    /// many.
    fn skip(&mut self, b: &[u8], from: usize, n: usize) -> (r: bool)
        requires
            from + n <= b@.len(),
            old(self).wf(b@),
        ensures
            r == (from + padded(n as int) <= b@.len()),
            r ==> final(self)@ == (Walk { at: from + padded(n as int), ..old(self)@ }),
            r ==> final(self).wf(b@),
    {
        let extra: usize = (4 - n % 4) % 4;
        assert(n + extra == padded(n as int));
        if b.len() - from - n < extra {
            return false;
        }
        self.at = from + n + extra;
        true
    }

    /// A node begins here.
    fn begin(&mut self, b: &[u8]) -> (r: bool)
        requires
            old(self).wf(b@),
            old(self).at + 4 <= b@.len(),
        ensures
            match begin(b@, old(self)@) {
                Step::On(next) => {
                    &&& r == (next.at <= b@.len())
                    &&& r ==> final(self)@ == next && final(self).wf(b@) && old(self)@.at < next.at
                },
                _ => !r,
            },
    {
        assert(b.len() <= usize::MAX);
        let start: usize = self.at + 4;
        let end: usize = find_byte(b, 0, start);
        let depth: usize = self.open.len();
        if end >= b.len() || depth >= MAX_DEPTH {
            return false;
        }
        let name: &[u8] = vstd::slice::slice_subrange(b, start, end);
        if !is_text(name) {
            return false;
        }
        if depth == 0 {
            if find_byte(name, 0x40, 0) > 0 {
                return false;
            }
            assert(base_name(name@).len() == 0);
        } else if self.open[depth - 1].has_nops {
            return false;
        }
        let ghost before = self@;
        if !self.skip(b, start, end - start + 1) {
            return false;
        }
        let root = Frame {
            kind: NodeKind::Root,
            properties: Properties { address_cells: 2, size_cells: 1, reg: None, timebase: None },
            has_nodes: false,
            has_nops: false,
        };
        if depth == 0 {
            self.open.push(root);
            assert(self.open@ =~= seq![begun(NodeKind::Root)]);
        } else {
            let mut parent = self.open[depth - 1];
            parent.has_nodes = true;
            let kind = node_kind(parent.kind, name);
            self.open.set(depth - 1, parent);
            self.open.push(Frame { kind, ..root });
            self.has_chosen = self.has_chosen || kind == NodeKind::Chosen;
            self.has_memory = self.has_memory || kind == NodeKind::Memory;
            self.has_cpus = self.has_cpus || kind == NodeKind::Cpus;
            assert(self.open@ =~= before.open.update(
                depth - 1,
                Frame { has_nodes: true, ..before.open.last() },
            ).push(begun(kind)));
        }
        true
    }

    /// A property is here.
    fn property(&mut self, b: &[u8], names: &[u8]) -> (r: bool)
        requires
            old(self).wf(b@),
            old(self).at + 4 <= b@.len(),
        ensures
            match property(b@, names@, old(self)@) {
                Step::On(next) => {
                    &&& r == (next.at <= b@.len())
                    &&& r ==> final(self)@ == next && final(self).wf(b@) && old(self)@.at < next.at
                },
                _ => !r,
            },
    {
        let depth: usize = self.open.len();
        if depth == 0 || self.open[depth - 1].has_nodes || self.open[depth - 1].has_nops || b.len()
            - self.at < 12 {
            return false;
        }
        let len: usize = read32(b, self.at + 4) as usize;
        let from: usize = read32(b, self.at + 8) as usize;
        let start: usize = self.at + 12;
        if b.len() - start < len || from >= names.len() {
            assert(from >= names@.len() ==> find(names@, 0, from as int) >= names@.len());
            return false;
        }
        let to: usize = find_byte(names, 0, from);
        if to >= names.len() {
            return false;
        }
        let name: &[u8] = vstd::slice::slice_subrange(names, from, to);
        if !is_text(name) {
            return false;
        }
        let value: &[u8] = vstd::slice::slice_subrange(b, start, start + len);
        let f = match add_property(self.open[depth - 1], name, value) {
            Some(f) => f,
            None => {
                return false;
            },
        };
        if !self.skip(b, start, len) {
            return false;
        }
        self.open.set(depth - 1, f);
        true
    }

    /// A node ends here.
    fn end(&mut self, b: &[u8]) -> (r: bool)
        requires
            old(self).wf(b@),
            old(self).at + 4 <= b@.len(),
        ensures
            match end(old(self)@) {
                Step::On(next) => r && final(self)@ == next && final(self).wf(b@),
                _ => !r,
            },
    {
        if self.open.len() == 0 || !is_complete(&self.open) {
            return false;
        }
        assert(b.len() <= usize::MAX);
        let ghost open = self.open@;
        self.closed = self.open.len() == 1;
        let _ = self.open.pop();
        self.at = self.at + 4;
        assert(self.open@ =~= open.drop_last());
        true
    }

    /// A token that stands for nothing is here.
    fn nop(&mut self, b: &[u8])
        requires
            old(self).wf(b@),
            old(self).at + 4 <= b@.len(),
        ensures
            nop(old(self)@) == Step::On(final(self)@),
            final(self).wf(b@),
    {
        assert(b.len() <= usize::MAX);
        let depth: usize = self.open.len();
        if depth > 0 {
            let mut f = self.open[depth - 1];
            f.has_nops = true;
            self.open.set(depth - 1, f);
        }
        self.at = self.at + 4;
    }
}

/// Whether the structure of a tree can be walked over.
fn walk(b: &[u8], names: &[u8]) -> (r: bool)
    ensures
        r == walks(b@, names@, first()),
{
    let mut w = Walker {
        at: 0,
        open: Vec::new(),
        closed: false,
        has_chosen: false,
        has_memory: false,
        has_cpus: false,
    };
    assert(w@ =~= first());
    loop
        invariant
            w.wf(b@),
            walks(b@, names@, first()) == walks(b@, names@, w@),
        decreases b@.len() - w.at,
    {
        if b.len() - w.at < 4 {
            return false;
        }
        let ghost before = w@;
        let token: u32 = read32(b, w.at);
        if token == NOP {
            w.nop(b);
        } else if w.closed {
            return token == END && w.has_chosen && w.has_memory && w.has_cpus;
        } else {
            let on: bool = if token == BEGIN_NODE {
                w.begin(b)
            } else if token == PROPERTY {
                w.property(b, names)
            } else if token == END_NODE {
                w.end(b)
            } else {
                false
            };
            if !on {
                return false;
            }
        }
        assert(step(b@, names@, before) == Step::On(w@));
    }
}

/// Whether the bytes of a device tree can be read.
pub fn check_tree(data: &[u8]) -> (r: bool)
    ensures
        r == tree_wf(data@),
{
    if usize::BITS != 64 {
        return false;
    }
    match load_tree(data) {
        Ok(tree) => {
            if tree.len() != data.len() {
                return false;
            }
        },
        Err(_) => {
            return false;
        },
    }
    let start: usize = read32(data, 8) as usize;
    let size: usize = read32(data, 36) as usize;
    let names_start: usize = read32(data, 12) as usize;
    let names_size: usize = read32(data, 32) as usize;
    if start > data.len() || data.len() - start < size || names_start > data.len() || data.len()
        - names_start < names_size {
        return false;
    }
    let b: &[u8] = vstd::slice::slice_subrange(data, start, start + size);
    let names: &[u8] = vstd::slice::slice_subrange(data, names_start, names_start + names_size);
    walk(b, names)
}

} // verus!
