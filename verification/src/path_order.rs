//! The order of paths: component by component, with `/` between the
//! components, as a path type orders them; two paths with the same
//! components are in the order of their texts.
use crate::order::{
    int_order, lawful, lemma_seq_order_equal, lemma_seq_order_flips, lemma_seq_order_skip,
    lemma_seq_order_transitive, seq_order, then, Order,
};
use crate::text::{
    byte_order, bytes_order, lemma_byte_order_lawful, lemma_text_order_equal,
    lemma_text_order_flips, lemma_text_order_transitive, order_of_bytes, order_of_text,
    text_order,
};
use vstd::prelude::*;
use vstd::string::*;
use vstd::utf8::*;

verus! {

/// The byte that stands between the components of a path, `/`.
pub const SEPARATOR: u8 = 47;

/// The byte of a dot.
pub const DOT: u8 = 46;

/// The rank of the root of the file system among the components.
pub const ROOT: u8 = 1;

/// The rank of the directory itself, `.`, which counts only at the very
/// start of a path.
pub const CURRENT: u8 = 2;

/// The rank of the directory above, `..`.
pub const PARENT: u8 = 3;

/// The rank of a component with a name.
pub const NORMAL: u8 = 4;

/// A component of a path: its rank, and its name where it has one.
#[derive(Debug, PartialEq, Eq)]
pub struct Component {
    pub rank: u8,
    pub name: Vec<u8>,
}

/// What a `Component` holds, as mathematics.
pub struct ComponentView {
    pub rank: int,
    pub name: Seq<u8>,
}

impl View for Component {
    type V = ComponentView;

    open spec fn view(&self) -> ComponentView {
        ComponentView { rank: self.rank as int, name: self.name@ }
    }
}

/// The views of some components.
pub open spec fn component_views(components: Seq<Component>) -> Seq<ComponentView> {
    components.map_values(|c: Component| c@)
}

/// The components so far with the piece that has just ended: an empty
/// piece counts for nothing, `.` counts only where nothing came before
/// it, `..` is the directory above, and any other piece is a component
/// with that name.
pub open spec fn closed(done: Seq<ComponentView>, piece: Seq<u8>) -> Seq<ComponentView> {
    if piece.len() == 0 {
        done
    } else if piece == seq![DOT] {
        if done.len() == 0 {
            done.push(ComponentView { rank: CURRENT as int, name: Seq::empty() })
        } else {
            done
        }
    } else if piece == seq![DOT, DOT] {
        done.push(ComponentView { rank: PARENT as int, name: Seq::empty() })
    } else {
        done.push(ComponentView { rank: NORMAL as int, name: piece })
    }
}

/// The components that have ended within the first `n` bytes of a path,
/// and the piece that is under way there. A path that starts with the
/// separator starts at the root; every separator ends a piece.
pub open spec fn scanned(bytes: Seq<u8>, n: nat) -> (Seq<ComponentView>, Seq<u8>)
    decreases n,
{
    if n == 0 || n > bytes.len() {
        if bytes.len() > 0 && bytes[0] == SEPARATOR {
            (seq![ComponentView { rank: ROOT as int, name: Seq::empty() }], Seq::empty())
        } else {
            (Seq::empty(), Seq::empty())
        }
    } else {
        let before = scanned(bytes, (n - 1) as nat);
        if bytes[n - 1] == SEPARATOR {
            (closed(before.0, before.1), Seq::empty())
        } else {
            (before.0, before.1.push(bytes[n - 1]))
        }
    }
}

/// The components of a path: the root if the path starts at it, and then
/// the pieces between the separators, without the empty ones and without
/// `.` anywhere but at the very start.
pub open spec fn components(bytes: Seq<u8>) -> Seq<ComponentView> {
    closed(scanned(bytes, bytes.len()).0, scanned(bytes, bytes.len()).1)
}

/// The order of two components: by rank, then by name.
pub open spec fn component_order(a: ComponentView, b: ComponentView) -> Order {
    then(int_order(a.rank, b.rank), bytes_order(a.name, b.name))
}

/// The order of components as a value.
pub open spec fn component_ordering() -> spec_fn(ComponentView, ComponentView) -> Order {
    |a: ComponentView, b: ComponentView| component_order(a, b)
}

/// The order of two paths by their components alone.
pub open spec fn components_order(a: Seq<char>, b: Seq<char>) -> Order {
    seq_order(component_ordering(), components(encode_utf8(a)), components(encode_utf8(b)))
}

/// The order of two paths: component by component, and by their texts
/// where the components are the same.
pub open spec fn path_text_order(a: Seq<char>, b: Seq<char>) -> Order {
    then(components_order(a, b), text_order(a, b))
}

/// The order of components is lawful.
pub proof fn lemma_component_order_lawful()
    ensures
        lawful(component_ordering()),
{
    lemma_byte_order_lawful();
    let ord = component_ordering();
    assert forall|a: ComponentView, b: ComponentView| (#[trigger] ord(a, b) is Equal) <==> a
        == b by {
        lemma_seq_order_equal(byte_order(), a.name, b.name);
    }
    assert forall|a: ComponentView, b: ComponentView| (#[trigger] ord(a, b) is Less) <==> (ord(
        b,
        a,
    ) is Greater) by {
        lemma_seq_order_flips(byte_order(), a.name, b.name);
        lemma_seq_order_flips(byte_order(), b.name, a.name);
    }
    assert forall|a: ComponentView, b: ComponentView, c: ComponentView|
        (#[trigger] ord(a, b) is Less) && (#[trigger] ord(b, c) is Less) implies ord(a, c)
        is Less by {
        lemma_seq_order_equal(byte_order(), a.name, b.name);
        lemma_seq_order_equal(byte_order(), b.name, c.name);
        lemma_seq_order_equal(byte_order(), a.name, c.name);
        if (bytes_order(a.name, b.name) is Less) && (bytes_order(b.name, c.name) is Less) {
            lemma_seq_order_transitive(byte_order(), a.name, b.name, c.name);
        }
    }
}

/// What holds of the order of any two paths: it ties on identical paths
/// only, and swapping the paths swaps before and after.
pub proof fn lemma_path_text_pair(a: Seq<char>, b: Seq<char>)
    ensures
        (path_text_order(a, b) is Equal) <==> a == b,
        (path_text_order(b, a) is Equal) <==> a == b,
        (path_text_order(a, b) is Less) <==> (path_text_order(b, a) is Greater),
        (path_text_order(a, b) is Greater) <==> (path_text_order(b, a) is Less),
{
    lemma_component_order_lawful();
    let x = components(encode_utf8(a));
    let y = components(encode_utf8(b));
    lemma_seq_order_equal(component_ordering(), x, y);
    lemma_seq_order_equal(component_ordering(), y, x);
    lemma_seq_order_flips(component_ordering(), x, y);
    lemma_seq_order_flips(component_ordering(), y, x);
    lemma_text_order_equal(a, b);
    lemma_text_order_equal(b, a);
    lemma_text_order_flips(a, b);
    lemma_text_order_flips(b, a);
}

/// The order of paths is transitive.
pub proof fn lemma_path_text_transitive(a: Seq<char>, b: Seq<char>, c: Seq<char>)
    requires
        path_text_order(a, b) is Less,
        path_text_order(b, c) is Less,
    ensures
        path_text_order(a, c) is Less,
{
    lemma_component_order_lawful();
    let x = components(encode_utf8(a));
    let y = components(encode_utf8(b));
    let z = components(encode_utf8(c));
    lemma_seq_order_equal(component_ordering(), x, y);
    lemma_seq_order_equal(component_ordering(), y, z);
    lemma_seq_order_equal(component_ordering(), x, z);
    if (components_order(a, b) is Less) && (components_order(b, c) is Less) {
        lemma_seq_order_transitive(component_ordering(), x, y, z);
    } else if (components_order(a, b) is Equal) && (components_order(b, c) is Equal) {
        lemma_text_order_transitive(a, b, c);
    }
}

/// Splits a path into its components.
pub fn components_of(path: &[u8]) -> (out: Vec<Component>)
    ensures
        component_views(out@) == components(path@),
{
    let mut out: Vec<Component> = Vec::new();
    let mut piece: Vec<u8> = Vec::new();
    if path.len() > 0 && path[0] == SEPARATOR {
        out.push(Component { rank: ROOT, name: Vec::new() });
    }
    let mut i: usize = 0;
    proof {
        assert(component_views(out@) =~= scanned(path@, 0).0);
        assert(piece@ =~= scanned(path@, 0).1);
    }
    while i < path.len()
        invariant
            i <= path.len(),
            component_views(out@) == scanned(path@, i as nat).0,
            piece@ == scanned(path@, i as nat).1,
        decreases path.len() - i,
    {
        let byte: u8 = path[i];
        if byte == SEPARATOR {
            close(&mut out, piece);
            piece = Vec::new();
        } else {
            piece.push(byte);
        }
        i = i + 1;
    }
    close(&mut out, piece);
    out
}

/// Ends a piece: adds the component that the piece stands for, if it
/// stands for one.
fn close(done: &mut Vec<Component>, piece: Vec<u8>)
    ensures
        component_views(final(done)@) == closed(component_views(old(done)@), piece@),
{
    let ghost before = component_views(done@);
    if piece.len() == 0 {
    } else if piece.len() == 1 && piece[0] == DOT {
        assert(piece@ =~= seq![DOT]);
        if done.len() == 0 {
            done.push(Component { rank: CURRENT, name: Vec::new() });
            assert(component_views(done@) =~= before.push(
                ComponentView { rank: CURRENT as int, name: Seq::empty() },
            ));
        }
    } else if piece.len() == 2 && piece[0] == DOT && piece[1] == DOT {
        assert(piece@ =~= seq![DOT, DOT]);
        done.push(Component { rank: PARENT, name: Vec::new() });
        assert(component_views(done@) =~= before.push(
            ComponentView { rank: PARENT as int, name: Seq::empty() },
        ));
    } else {
        assert(piece@ != seq![DOT]) by {
            if piece@ == seq![DOT] {
                assert(piece@.len() == 1 && piece@[0] == DOT);
            }
        }
        assert(piece@ != seq![DOT, DOT]) by {
            if piece@ == seq![DOT, DOT] {
                assert(piece@.len() == 2 && piece@[0] == DOT && piece@[1] == DOT);
            }
        }
        let ghost name = piece@;
        done.push(Component { rank: NORMAL, name: piece });
        assert(component_views(done@) =~= before.push(
            ComponentView { rank: NORMAL as int, name },
        ));
    }
}

/// Compares two components.
pub fn order_of_components(a: &Component, b: &Component) -> (r: Order)
    ensures
        r == component_order(a@, b@),
{
    if a.rank < b.rank {
        Order::Less
    } else if a.rank > b.rank {
        Order::Greater
    } else {
        order_of_bytes(a.name.as_slice(), b.name.as_slice())
    }
}

/// Compares two lists of components, the first difference deciding.
pub fn order_of_component_lists(a: &Vec<Component>, b: &Vec<Component>) -> (r: Order)
    ensures
        r == seq_order(component_ordering(), component_views(a@), component_views(b@)),
{
    let ghost x = component_views(a@);
    let ghost y = component_views(b@);
    let mut i: usize = 0;
    while i < a.len() && i < b.len()
        invariant
            i <= a.len(),
            i <= b.len(),
            x == component_views(a@),
            y == component_views(b@),
            x.take(i as int) == y.take(i as int),
        decreases a.len() - i,
    {
        let here = order_of_components(&a[i], &b[i]);
        proof {
            lemma_component_order_lawful();
            assert(component_ordering()(x[i as int], y[i as int]) == here);
        }
        if here != Order::Equal {
            proof {
                lemma_seq_order_skip(component_ordering(), x, y, i as int);
                assert(x.skip(i as int)[0] == x[i as int]);
                assert(y.skip(i as int)[0] == y[i as int]);
            }
            return here;
        }
        proof {
            assert(x[i as int] == y[i as int]);
            assert(x.take(i + 1) =~= x.take(i as int).push(x[i as int]));
            assert(y.take(i + 1) =~= y.take(i as int).push(y[i as int]));
        }
        i = i + 1;
    }
    proof {
        lemma_component_order_lawful();
        lemma_seq_order_skip(component_ordering(), x, y, i as int);
    }
    if i < b.len() {
        Order::Less
    } else if i < a.len() {
        Order::Greater
    } else {
        Order::Equal
    }
}

/// Compares two paths: component by component, and by their texts where
/// the components are the same.
pub fn order_of_paths(a: &str, b: &str) -> (r: Order)
    ensures
        r == path_text_order(a@, b@),
{
    let x = components_of(a.as_bytes());
    let y = components_of(b.as_bytes());
    match order_of_component_lists(&x, &y) {
        Order::Equal => order_of_text(a, b),
        decided => decided,
    }
}

} // verus!
