//! A singly linked list whose nodes live in boxes.
//!
//! The list keeps a `size` counter next to its chain of nodes. Every
//! operation keeps the counter at least as large as the number of nodes;
//! `insert_after` with an index equal to the number of nodes counts an
//! insertion that does not happen, so the two may differ.
use vstd::prelude::*;
use vstd::string::*;
use crate::text::{decimal, joined, join_strings, push_decimal};

verus! {

struct Node<T> {
    value: T,
    next: Option<Box<Node<T>>>,
}

/// The values held by a chain of nodes, front first.
spec fn chain<T>(link: Option<Box<Node<T>>>) -> Seq<T>
    decreases link,
{
    match link {
        None => Seq::empty(),
        Some(node) => seq![node.value] + chain(node.next),
    }
}

pub struct LinkedList<T> {
    head: Option<Box<Node<T>>>,
    size: usize,
}

impl<T> View for LinkedList<T> {
    type V = Seq<T>;

    closed spec fn view(&self) -> Seq<T> {
        chain(self.head)
    }
}

impl<T> LinkedList<T> {
    /// The counter that `len` reports.
    pub closed spec fn spec_len(&self) -> nat {
        self.size as nat
    }

    /// Whether the counter equals the number of values. Every operation
    /// keeps this, except an insertion at the end position, which counts a
    /// value it does not insert.
    pub open spec fn counts_values(&self) -> bool {
        self.spec_len() == self@.len()
    }

    #[verifier::type_invariant]
    spec fn counter_covers_nodes(&self) -> bool {
        chain(self.head).len() <= self.size
    }
}

/// Appends `value` after the last node of a non-empty chain, walking at most
/// `bound` links.
fn push_back_node<T>(node: &mut Box<Node<T>>, bound: usize, value: T)
    requires
        chain(Some(*old(node))).len() <= bound + 1,
    ensures
        chain(Some(*final(node))) == chain(Some(*old(node))).push(value),
    decreases bound,
{
    let ghost old_tail = chain(old(node).next);
    if bound == 0 || node.next.is_none() {
        assert(old_tail.len() == 0);
        node.next = Some(Box::new(Node { value, next: None }));
        assert(chain(node.next) =~= old_tail.push(value));
    } else {
        match &mut node.next {
            Some(next) => {
                push_back_node(next, bound - 1, value);
            },
            None => {},
        }
        assert(chain(node.next) =~= old_tail.push(value));
    }
    assert(chain(Some(*node)) =~= seq![node.value] + chain(node.next));
}

/// Takes away every node after the first `index` ones, provided the chain
/// holds at least `index` nodes; otherwise leaves it alone and returns `None`.
fn detach_after<T>(link: &mut Option<Box<Node<T>>>, index: usize) -> (tail: Option<
    Option<Box<Node<T>>>,
>)
    requires
        index >= 1,
    ensures
        index <= chain(*old(link)).len() ==> {
            &&& tail matches Some(rest)
            &&& chain(rest) == chain(*old(link)).skip(index as int)
            &&& chain(*final(link)) == chain(*old(link)).take(index as int)
        },
        index > chain(*old(link)).len() ==> tail is None && *final(link) == *old(link),
    decreases index,
{
    let ghost old_view = chain(*link);
    match link {
        None => None,
        Some(node) => {
            let ghost first = node.value;
            let ghost rest_view = chain(node.next);
            if index == 1 {
                let rest = node.next.take();
                assert(chain(node.next) =~= Seq::<T>::empty());
                assert(chain(Some(*node)) =~= seq![first]);
                assert(rest_view =~= old_view.skip(1));
                Some(rest)
            } else {
                let r = detach_after(&mut node.next, index - 1);
                proof {
                    if index <= old_view.len() {
                        assert(rest_view.skip(index - 1) =~= old_view.skip(index as int));
                        assert(seq![first] + rest_view.take(index - 1) =~= old_view.take(
                            index as int,
                        ));
                    }
                }
                r
            }
        },
    }
}

/// Walks `steps` links from the front of the chain and places `value` right
/// after the node reached there. `None`: the walk ran off the chain before
/// its last step; `Some(false)`: the walk ended just past the last node and
/// nothing was placed; `Some(true)`: the value was placed.
fn insert_after_walk<T>(link: &mut Option<Box<Node<T>>>, steps: usize, value: T) -> (placed:
    Option<bool>)
    ensures
        steps < chain(*old(link)).len() ==> placed == Some(true) && chain(*final(link)) == chain(
            *old(link),
        ).insert(steps + 1, value),
        steps == chain(*old(link)).len() ==> placed == Some(false) && *final(link) == *old(link),
        steps > chain(*old(link)).len() ==> placed is None && *final(link) == *old(link),
    decreases steps,
{
    let ghost old_view = chain(*link);
    match link {
        None => {
            if steps == 0 {
                Some(false)
            } else {
                None
            }
        },
        Some(node) => {
            let ghost first = node.value;
            let ghost rest_view = chain(node.next);
            if steps == 0 {
                let rest = node.next.take();
                node.next = Some(Box::new(Node { value, next: rest }));
                assert(chain(node.next) =~= seq![value] + rest_view);
                assert(chain(Some(*node)) =~= old_view.insert(1, value));
                Some(true)
            } else {
                let r = insert_after_walk(&mut node.next, steps - 1, value);
                proof {
                    if steps < old_view.len() {
                        assert(seq![first] + rest_view.insert(steps as int, value) =~= old_view.insert(
                            steps + 1,
                            value,
                        ));
                    }
                }
                r
            }
        },
    }
}

/// Replaces the value `steps` links from the front, if the chain is that long.
fn replace_at<T>(link: &mut Option<Box<Node<T>>>, steps: usize, value: T)
    ensures
        steps < chain(*old(link)).len() ==> chain(*final(link)) == chain(*old(link)).update(
            steps as int,
            value,
        ),
        steps >= chain(*old(link)).len() ==> *final(link) == *old(link),
    decreases steps,
{
    let ghost old_view = chain(*link);
    match link {
        None => {},
        Some(node) => {
            let ghost rest_view = chain(node.next);
            if steps == 0 {
                node.value = value;
                assert(chain(Some(*node)) =~= old_view.update(0, value));
            } else {
                replace_at(&mut node.next, steps - 1, value);
                proof {
                    if steps < old_view.len() {
                        assert(seq![old_view[0]] + rest_view.update(steps - 1, value) =~= old_view.update(
                            steps as int,
                            value,
                        ));
                    }
                }
            }
        },
    }
}

impl<T> LinkedList<T> {
    /// An empty list.
    pub fn new() -> (list: Self)
        ensures
            list@ == Seq::<T>::empty(),
            list.spec_len() == 0,
            list.counts_values(),
    {
        LinkedList { head: None, size: 0 }
    }

    /// The value of the counter.
    pub fn len(&self) -> (n: usize)
        ensures
            n == self.spec_len(),
            self@.len() <= n,
            self.counts_values() ==> n == self@.len(),
    {
        proof {
            use_type_invariant(self);
        }
        self.size
    }

    /// Whether the counter is zero; then the list holds no node.
    pub fn is_empty(&self) -> (b: bool)
        ensures
            b == (self.spec_len() == 0),
            b ==> self@.len() == 0,
    {
        proof {
            use_type_invariant(self);
        }
        self.size == 0
    }

    /// An iterator over the values, front first.
    pub fn iter(&self) -> (it: ListIterator<'_, T>)
        ensures
            it@ == self@,
    {
        ListIterator { current: self.head.as_ref() }
    }

    /// Appends `value` after the last node.
    pub fn push_back(&mut self, value: T)
        requires
            old(self).spec_len() < usize::MAX,
        ensures
            final(self)@ == old(self)@.push(value),
            final(self).spec_len() == old(self).spec_len() + 1,
            old(self).counts_values() ==> final(self).counts_values(),
    {
        proof {
            use_type_invariant(&*self);
        }
        let ghost old_view = self@;
        let mut head = None;
        std::mem::swap(&mut head, &mut self.head);
        let bound = self.size;
        match &mut head {
            Some(node) => push_back_node(node, bound, value),
            None => head = Some(Box::new(Node { value, next: None })),
        }
        assert(chain(head) =~= old_view.push(value));
        self.size = self.size + 1;
        self.head = head;
    }

    /// Puts `value` in front of the first node.
    pub fn push_front(&mut self, value: T)
        requires
            old(self).spec_len() < usize::MAX,
        ensures
            final(self)@ == seq![value] + old(self)@,
            final(self).spec_len() == old(self).spec_len() + 1,
            old(self).counts_values() ==> final(self).counts_values(),
    {
        proof {
            use_type_invariant(&*self);
        }
        let mut head = None;
        std::mem::swap(&mut head, &mut self.head);
        let node = Box::new(Node { value, next: head });
        self.size = self.size + 1;
        self.head = Some(node);
    }

    /// Inserts `value` after the node at position `index` (counted from 0);
    /// an `index` of 0 puts it in front instead. An `index` equal to the
    /// number of nodes inserts nothing but still counts one more value; a
    /// larger one changes nothing.
    pub fn insert_after(&mut self, index: usize, value: T)
        requires
            index <= old(self)@.len() ==> old(self).spec_len() < usize::MAX,
        ensures
            index == 0 ==> final(self)@ == seq![value] + old(self)@ && final(self).spec_len()
                == old(self).spec_len() + 1,
            0 < index < old(self)@.len() ==> final(self)@ == old(self)@.insert(index + 1, value)
                && final(self).spec_len() == old(self).spec_len() + 1,
            0 < index == old(self)@.len() ==> final(self)@ == old(self)@ && final(self).spec_len()
                == old(self).spec_len() + 1,
            index > old(self)@.len() ==> final(self)@ == old(self)@ && final(self).spec_len()
                == old(self).spec_len(),
            old(self).counts_values() && !(0 < index && index == old(self)@.len())
                ==> final(self).counts_values(),
    {
        if index == 0 {
            self.push_front(value);
            return ;
        }
        proof {
            use_type_invariant(&*self);
        }
        let mut head = None;
        std::mem::swap(&mut head, &mut self.head);
        let placed = insert_after_walk(&mut head, index, value);
        match placed {
            None => {
                self.head = head;
            },
            Some(_) => {
                self.size = self.size + 1;
                self.head = head;
            },
        }
    }

    /// Splits off the values after the first `index` ones into a new list.
    /// Refuses (`None`, nothing changed) an `index` of 0, one above the
    /// counter, or one above the number of nodes.
    pub fn split_at(&mut self, index: usize) -> (rest: Option<LinkedList<T>>)
        ensures
            (index == 0 || index > old(self).spec_len() || index > old(self)@.len()) ==> {
                &&& rest is None
                &&& final(self)@ == old(self)@
                &&& final(self).spec_len() == old(self).spec_len()
            },
            (0 < index <= old(self).spec_len() && index <= old(self)@.len()) ==> {
                &&& rest matches Some(r)
                &&& r@ == old(self)@.skip(index as int)
                &&& r.spec_len() == old(self).spec_len() - index
                &&& final(self)@ == old(self)@.take(index as int)
                &&& final(self).spec_len() == index
            },
            rest matches Some(r) ==> final(self)@ + r@ == old(self)@,
            old(self).counts_values() ==> final(self).counts_values() && (rest matches Some(r)
                ==> r.counts_values()),
    {
        proof {
            use_type_invariant(&*self);
        }
        if index == 0 || index > self.size {
            return None;
        }
        let mut head = None;
        std::mem::swap(&mut head, &mut self.head);
        let tail = detach_after(&mut head, index);
        match tail {
            None => {
                self.head = head;
                None
            },
            Some(next) => {
                let list = LinkedList { head: next, size: self.size - index };
                self.size = index;
                self.head = head;
                proof {
                    let whole = old(self)@;
                    assert(whole.take(index as int) + whole.skip(index as int) =~= whole);
                }
                Some(list)
            },
        }
    }

    /// The one-line description of the list, given the text of each value
    /// (front first): `LinkedList: Size: <counter>; Chain : v0 => v1 => ...  `.
    /// When the counter exceeds the number of values (after an insertion at
    /// the end position), the chain ends with one more ` => `.
    pub fn describe(&self, values: &Vec<String>) -> (text: String)
        requires
            values@.len() == self@.len(),
        ensures
            text@ == "LinkedList: Size: "@ + decimal(self.spec_len()) + "; Chain : "@ + joined(
                values@.map_values(|v: String| v@),
                " => "@,
            ) + (if 0 < values@.len() < self.spec_len() {
                " => "@
            } else {
                Seq::<char>::empty()
            }) + "  "@,
    {
        proof {
            use_type_invariant(self);
        }
        let mut text = String::from_str("LinkedList: Size: ");
        push_decimal(&mut text, self.size as u64);
        text.append("; Chain : ");
        let chain_text = join_strings(values, " => ");
        text.append(chain_text.as_str());
        let ghost body = text@;
        if 0 < values.len() && values.len() < self.size {
            text.append(" => ");
        } else {
            assert(body + Seq::<char>::empty() =~= body);
        }
        text.append("  ");
        text
    }

    /// Replaces the value at position `index` (counted from 0), if there is
    /// a node there.
    pub fn change_value_by_index(&mut self, index: usize, value: T)
        requires
            index >= 1,
        ensures
            index < old(self)@.len() ==> final(self)@ == old(self)@.update(index as int, value),
            index >= old(self)@.len() ==> final(self)@ == old(self)@,
            final(self).spec_len() == old(self).spec_len(),
            old(self).counts_values() ==> final(self).counts_values(),
    {
        proof {
            use_type_invariant(&*self);
        }
        let mut head = None;
        std::mem::swap(&mut head, &mut self.head);
        replace_at(&mut head, index, value);
        self.head = head;
    }
}

impl<T> Default for LinkedList<T> {
    fn default() -> (list: Self)
        ensures
            list@ == Seq::<T>::empty(),
            list.spec_len() == 0,
            list.counts_values(),
    {
        LinkedList::new()
    }
}

/// Walks the values of a list, front first.
pub struct ListIterator<'a, T> {
    current: Option<&'a Box<Node<T>>>,
}

impl<'a, T> View for ListIterator<'a, T> {
    type V = Seq<T>;

    /// The values not handed out yet.
    closed spec fn view(&self) -> Seq<T> {
        match self.current {
            None => Seq::empty(),
            Some(node) => chain(Some(*node)),
        }
    }
}

impl<'a, T> ListIterator<'a, T> {
    /// Hands out the next value, if any is left.
    pub fn next(&mut self) -> (item: Option<&'a T>)
        ensures
            old(self)@.len() == 0 ==> item is None && final(self)@ == old(self)@,
            old(self)@.len() > 0 ==> item == Some(&old(self)@[0]) && final(self)@ == old(
                self,
            )@.drop_first(),
    {
        match self.current {
            None => None,
            Some(node) => {
                assert(chain(node.next) =~= self@.drop_first());
                self.current = node.next.as_ref();
                Some(&node.value)
            },
        }
    }
}

} // verus!
