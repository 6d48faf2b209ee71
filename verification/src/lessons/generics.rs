//! Generic functions and containers: pairs, a stack and an event queue.
use vstd::prelude::*;
use vstd::laws_cmp::obeys_partial_cmp_spec_properties;
use vstd::laws_eq::obeys_eq_spec_properties;
use vstd::std_specs::cmp::{PartialEqSpec, PartialOrdSpec};
use std::cmp::Ordering;
use std::collections::VecDeque;

use crate::text;

verus! {

/// The first element of `list`, if any.
pub fn first<T>(list: &[T]) -> (r: Option<&T>)
    ensures
        r == (if list@.len() == 0 {
            None
        } else {
            Some(&list@[0])
        }),
{
    if list.len() == 0 {
        None
    } else {
        Some(&list[0])
    }
}

/// `a` compares as greater than `b`.
pub open spec fn is_greater<T: PartialOrd>(a: &T, b: &T) -> bool {
    a.partial_cmp_spec(b) == Some(Ordering::Greater)
}

/// The position of the element that `largest` returns for the first `n`
/// elements: the last of the largest ones (as `Iterator::max_by` picks).
pub open spec fn largest_index<T: PartialOrd>(list: Seq<T>, n: nat) -> int
    decreases n,
{
    if n <= 1 {
        0
    } else {
        let m = largest_index(list, (n - 1) as nat);
        if is_greater(&list[m], &list[n - 1]) {
            m
        } else {
            n - 1
        }
    }
}

/// Any two elements of `list` can be compared.
pub open spec fn all_comparable<T: PartialOrd>(list: Seq<T>) -> bool {
    forall|i: int, j: int|
        0 <= i < list.len() && 0 <= j < list.len() ==> (#[trigger] list[i].partial_cmp_spec(
            &#[trigger] list[j],
        )) is Some
}

proof fn lemma_largest_index_bounds<T: PartialOrd>(list: Seq<T>, n: nat)
    requires
        1 <= n <= list.len(),
    ensures
        0 <= largest_index(list, n) < n,
    decreases n,
{
    if n > 1 {
        lemma_largest_index_bounds(list, (n - 1) as nat);
    }
}

/// `a` compares as less than `b`.
pub open spec fn is_less<T: PartialOrd>(a: &T, b: &T) -> bool {
    a.partial_cmp_spec(b) == Some(Ordering::Less)
}

/// The number before `n` (0 before 0).
spec fn before(n: nat) -> nat {
    if n == 0 {
        0
    } else {
        (n - 1) as nat
    }
}

proof fn lemma_largest_prefix<T: PartialOrd>(list: Seq<T>, n: nat)
    requires
        obeys_partial_cmp_spec_properties::<T>(),
        all_comparable(list),
        1 <= n <= list.len(),
    ensures
        0 <= largest_index(list, n) < n,
        forall|i: int| 0 <= i < n ==> !is_greater(&list[i], &list[largest_index(list, n)]),
        forall|i: int|
            largest_index(list, n) < i < n ==> is_less(&list[i], &list[largest_index(list, n)]),
    decreases n,
{
    reveal(obeys_partial_cmp_spec_properties);
    reveal(obeys_eq_spec_properties);
    if n > 1 {
        let p = before(n);
        lemma_largest_prefix(list, p);
        let m = largest_index(list, p);
        assert(largest_index(list, n) == if is_greater(&list[m], &list[n - 1]) {
            m
        } else {
            n - 1
        });
        let c = list[n - 1];
        assert(list[m].partial_cmp_spec(&c) is Some);
        if is_greater(&list[m], &c) {
            assert(is_less(&c, &list[m]));
        } else {
            assert forall|i: int| 0 <= i < n - 1 implies !is_greater(&list[i], &c) by {
                let a = list[i];
                let b = list[m];
                assert(a.partial_cmp_spec(&b) is Some);
                assert(!is_greater(&a, &b));
                if is_greater(&a, &c) {
                    if a.partial_cmp_spec(&b) == Some(Ordering::Less) {
                        assert(b.partial_cmp_spec(&a) == Some(Ordering::Greater));
                        assert(b.partial_cmp_spec(&c) == Some(Ordering::Greater));
                    } else {
                        assert(a.partial_cmp_spec(&b) == Some(Ordering::Equal));
                        assert(a.eq_spec(&b));
                        if b.partial_cmp_spec(&c) == Some(Ordering::Less) {
                            assert(c.partial_cmp_spec(&a) == Some(Ordering::Less));
                            assert(b.partial_cmp_spec(&a) == Some(Ordering::Less));
                            assert(a.partial_cmp_spec(&b) == Some(Ordering::Greater));
                        } else {
                            assert(b.partial_cmp_spec(&c) == Some(Ordering::Equal));
                            assert(b.eq_spec(&c));
                            assert(a.eq_spec(&c));
                            assert(a.partial_cmp_spec(&c) == Some(Ordering::Equal));
                        }
                    }
                }
            }
            assert(!is_greater(&c, &c)) by {
                assert(c.partial_cmp_spec(&c) is Some);
                if is_greater(&c, &c) {
                    assert(is_less(&c, &c));
                }
            }
        }
    }
}

/// For a list whose elements are totally ordered by `partial_cmp`, the
/// element that `largest` picks is a maximum: no element compares greater
/// than it, and every element after it compares less (it is the last of the
/// largest ones).
pub proof fn lemma_largest_is_the_last_maximum<T: PartialOrd>(list: Seq<T>)
    requires
        obeys_partial_cmp_spec_properties::<T>(),
        all_comparable(list),
        list.len() > 0,
    ensures
        0 <= largest_index(list, list.len()) < list.len(),
        forall|i: int|
            0 <= i < list.len() ==> !is_greater(&list[i], &list[largest_index(list, list.len())]),
        forall|i: int|
            largest_index(list, list.len()) < i < list.len() ==> is_less(
                &list[i],
                &list[largest_index(list, list.len())],
            ),
{
    lemma_largest_prefix(list, list.len());
}

/// The largest element of `list` (the last of the largest ones), or `None`
/// for an empty list. What it picks is stated for element types whose
/// `partial_cmp` follows its specification; for any type the result is
/// `None` exactly for an empty list, and otherwise one of its elements.
pub fn largest<T: PartialOrd>(list: &[T]) -> (r: Option<&T>)
    requires
        T::obeys_partial_cmp_spec() ==> all_comparable(list@),
    ensures
        r is None <==> list@.len() == 0,
        r matches Some(x) ==> exists|i: int| 0 <= i < list@.len() && x == &list@[i],
        T::obeys_partial_cmp_spec() ==> r == (if list@.len() == 0 {
            None
        } else {
            Some(&list@[largest_index(list@, list@.len())])
        }),
        T::obeys_partial_cmp_spec() && obeys_partial_cmp_spec_properties::<T>() ==> (r matches Some(
            x,
        ) ==> forall|i: int| 0 <= i < list@.len() ==> !is_greater(&list@[i], x)),
{
    if list.len() == 0 {
        return None;
    }
    proof {
        if T::obeys_partial_cmp_spec() && obeys_partial_cmp_spec_properties::<T>() {
            lemma_largest_is_the_last_maximum(list@);
        }
    }
    let mut best: usize = 0;
    let mut i: usize = 1;
    while i < list.len()
        invariant
            1 <= i <= list@.len(),
            best < i,
            T::obeys_partial_cmp_spec() ==> best == largest_index(list@, text::nat_of(i)),
        decreases list.len() - i,
    {
        proof {
            lemma_largest_index_bounds(list@, text::nat_of(i));
        }
        let c = list[best].partial_cmp(&list[i]);
        match c {
            Some(Ordering::Greater) => {},
            _ => {
                best = i;
            },
        }
        i = i + 1;
    }
    proof {
        lemma_largest_index_bounds(list@, text::nat_of(i));
    }
    Some(&list[best])
}

/// A clone of the largest element of `list`, or `None` for an empty list.
pub fn largest_owned<T: PartialOrd + Clone>(list: &[T]) -> (r: Option<T>)
    requires
        T::obeys_partial_cmp_spec() ==> all_comparable(list@),
    ensures
        list@.len() == 0 <==> r is None,
        r matches Some(v) ==> exists|i: int| 0 <= i < list@.len() && cloned(list@[i], v),
        T::obeys_partial_cmp_spec() ==> (r matches Some(v) ==> cloned(
            list@[largest_index(list@, list@.len())],
            v,
        )),
{
    match largest(list) {
        Some(b) => Some(b.clone()),
        None => None,
    }
}

/// The symbol that relates `a` to `b`: `>`, `<`, or `==` (also when they
/// cannot be compared).
pub fn comparison_symbol<T: PartialOrd>(a: &T, b: &T) -> (r: &'static str)
    ensures
        r@ == ">"@ || r@ == "<"@ || r@ == "=="@,
        T::obeys_partial_cmp_spec() ==> r@ == match a.partial_cmp_spec(b) {
            Some(Ordering::Greater) => ">"@,
            Some(Ordering::Less) => "<"@,
            _ => "=="@,
        },
{
    match a.partial_cmp(b) {
        Some(Ordering::Greater) => ">",
        Some(Ordering::Less) => "<",
        _ => "==",
    }
}

/// A greeting for `name`.
pub fn make_greeting(name: &str) -> (r: String)
    ensures
        r@ == "hello "@ + name@,
{
    let mut r = String::from_str("hello ");
    r.append(name);
    r
}

/// Two values of the same type.
#[derive(Debug)]
pub struct Pair<T> {
    pub first: T,
    pub second: T,
}

impl<T> Pair<T> {
    /// Pairs two values.
    pub fn new(first: T, second: T) -> (r: Self)
        ensures
            r.first == first,
            r.second == second,
    {
        Pair { first, second }
    }
}

impl<T: PartialOrd> Pair<T> {
    /// The strictly larger of the two values; `None` when they are equal or
    /// cannot be compared.
    pub fn largest(&self) -> (r: Option<&T>)
        ensures
            r is None || r == Some(&self.first) || r == Some(&self.second),
            T::obeys_partial_cmp_spec() ==> r == match self.first.partial_cmp_spec(&self.second) {
                Some(Ordering::Greater) => Some(&self.first),
                Some(Ordering::Less) => Some(&self.second),
                _ => None,
            },
    {
        match self.first.partial_cmp(&self.second) {
            Some(Ordering::Greater) => Some(&self.first),
            Some(Ordering::Less) => Some(&self.second),
            _ => None,
        }
    }

    /// The value that `print_largest` shows: the larger one, or the first
    /// when neither is larger.
    pub fn largest_or_first(&self) -> (r: &T)
        ensures
            r == &self.first || r == &self.second,
            T::obeys_partial_cmp_spec() ==> r == match self.first.partial_cmp_spec(&self.second) {
                Some(Ordering::Less) => &self.second,
                _ => &self.first,
            },
    {
        match self.largest() {
            Some(v) => v,
            None => &self.first,
        }
    }
}

/// A last-in, first-out stack.
pub struct Stack<T> {
    items: Vec<T>,
}

impl<T> View for Stack<T> {
    type V = Seq<T>;

    /// The items, bottom first.
    closed spec fn view(&self) -> Seq<T> {
        self.items@
    }
}

impl<T> Stack<T> {
    /// An empty stack.
    pub fn new() -> (r: Self)
        ensures
            r@ == Seq::<T>::empty(),
    {
        Stack { items: Vec::new() }
    }

    /// Puts `value` on top.
    pub fn push(&mut self, value: T)
        ensures
            final(self)@ == old(self)@.push(value),
    {
        self.items.push(value);
    }

    /// Removes and returns the top value, if any.
    pub fn pop(&mut self) -> (r: Option<T>)
        ensures
            old(self)@.len() == 0 ==> r is None && final(self)@ == old(self)@,
            old(self)@.len() > 0 ==> r == Some(old(self)@.last()) && final(self)@ == old(
                self,
            )@.drop_last(),
    {
        self.items.pop()
    }

    /// The top value, if any.
    pub fn peek(&self) -> (r: Option<&T>)
        ensures
            r == (if self@.len() == 0 {
                None
            } else {
                Some(&self@.last())
            }),
    {
        if self.items.len() == 0 {
            None
        } else {
            Some(&self.items[self.items.len() - 1])
        }
    }

    /// The number of values.
    pub fn size(&self) -> (r: usize)
        ensures
            r == self@.len(),
    {
        self.items.len()
    }

    /// Whether the stack holds no values.
    pub fn is_empty(&self) -> (r: bool)
        ensures
            r == (self@.len() == 0),
    {
        self.items.len() == 0
    }
}

/// Pushing a value and popping it again gives the value back and leaves the
/// stack as it was.
pub proof fn lemma_stack_push_pop<T>(before: Seq<T>, value: T)
    ensures
        before.push(value).len() > 0,
        before.push(value).last() == value,
        before.push(value).drop_last() == before,
{
    assert(before.push(value).drop_last() =~= before);
}

/// A push never overtakes the events already waiting: the event handed out
/// next is the same, and the pushed event comes after those that remain.
pub proof fn lemma_queue_push_keeps_order<T>(events: Seq<T>, event: T)
    requires
        events.len() > 0,
    ensures
        events.push(event)[0] == events[0],
        events.push(event).drop_first() == events.drop_first().push(event),
{
    assert(events.push(event).drop_first() =~= events.drop_first().push(event));
}

/// A first-in, first-out queue of events that counts how many it processed.
pub struct EventQueue<T> {
    queue: VecDeque<T>,
    processed: usize,
}

impl<T> EventQueue<T> {
    /// The waiting events, oldest first.
    pub closed spec fn events(&self) -> Seq<T> {
        self.queue@
    }

    /// How many events were processed so far.
    pub closed spec fn processed_count(&self) -> usize {
        self.processed
    }

    /// An empty queue that has processed nothing.
    pub fn new() -> (r: Self)
        ensures
            r.events() == Seq::<T>::empty(),
            r.processed_count() == 0,
    {
        EventQueue { queue: VecDeque::new(), processed: 0 }
    }

    /// Adds an event at the back.
    pub fn push(&mut self, event: T)
        ensures
            final(self).events() == old(self).events().push(event),
            final(self).processed_count() == old(self).processed_count(),
    {
        self.queue.push_back(event);
    }

    /// The oldest waiting event, if any.
    pub fn peek(&self) -> (r: Option<&T>)
        ensures
            r == (if self.events().len() == 0 {
                None
            } else {
                Some(&self.events()[0])
            }),
    {
        if self.queue.len() == 0 {
            None
        } else {
            Some(&self.queue[0])
        }
    }

    /// Hands the oldest event to `handler`; returns whether there was one.
    pub fn process_next<F: FnOnce(T)>(&mut self, handler: F) -> (r: bool)
        requires
            forall|e: T| handler.requires((e,)),
            old(self).events().len() > 0 ==> old(self).processed_count() < usize::MAX,
        ensures
            r == (old(self).events().len() > 0),
            r ==> final(self).events() == old(self).events().drop_first()
                && final(self).processed_count() == old(self).processed_count() + 1
                && handler.ensures((old(self).events()[0],), ()),
            !r ==> final(self).events() == old(self).events()
                && final(self).processed_count() == old(self).processed_count(),
    {
        match self.queue.pop_front() {
            None => false,
            Some(event) => {
                handler(event);
                self.processed = self.processed + 1;
                true
            },
        }
    }

    /// Hands every waiting event to `handler`, oldest first: each waiting
    /// event is passed to one call of `handler`, in queue order.
    pub fn drain<F: Fn(T)>(&mut self, handler: F)
        requires
            forall|e: T| handler.requires((e,)),
            old(self).processed_count() + old(self).events().len() <= usize::MAX,
        ensures
            final(self).events() == Seq::<T>::empty(),
            final(self).processed_count() == old(self).processed_count() + old(
                self,
            ).events().len(),
            forall|i: int|
                0 <= i < old(self).events().len() ==> handler.ensures(
                    (#[trigger] old(self).events()[i],),
                    (),
                ),
    {
        let ghost start = self.queue@;
        let ghost p0 = self.processed;
        let ghost mut k: int = 0;
        while self.queue.len() > 0
            invariant
                forall|e: T| handler.requires((e,)),
                0 <= k <= start.len(),
                self.queue@ == start.skip(k),
                self.processed == p0 + k,
                p0 + start.len() <= usize::MAX,
                forall|j: int| 0 <= j < k ==> handler.ensures((#[trigger] start[j],), ()),
            decreases self.queue@.len(),
        {
            match self.queue.pop_front() {
                Some(event) => {
                    assert(event == start[k]);
                    handler(event);
                    self.processed = self.processed + 1;
                    proof {
                        assert(start.skip(k).drop_first() =~= start.skip(k + 1));
                        k = k + 1;
                    }
                },
                None => {},
            }
        }
    }

    /// The waiting event at position `i` (0 is the oldest).
    pub fn get(&self, i: usize) -> (r: &T)
        requires
            i < self.events().len(),
        ensures
            *r == self.events()[i as int],
    {
        &self.queue[i]
    }

    /// The number of waiting events.
    pub fn len(&self) -> (r: usize)
        ensures
            r == self.events().len(),
    {
        self.queue.len()
    }

    /// How many events were processed so far.
    pub fn total_processed(&self) -> (r: usize)
        ensures
            r == self.processed_count(),
    {
        self.processed
    }
}

} // verus!
