//! Simple brace-delimited lists, as written in `LIST` replies.
//!
//! A list is `{`, then each element followed by one space, then `}`. An
//! element is either plain text, written as it is (no quoting: names never
//! hold spaces or braces), or a sublist, written by the same rule.
use vstd::prelude::*;
use crate::text::{push_char, views};

verus! {

/// The elements of a list, each followed by one space.
pub open spec fn body(items: Seq<Seq<char>>) -> Seq<char>
    decreases items.len(),
{
    if items.len() == 0 {
        seq![]
    } else {
        body(items.drop_last()) + items.last() + seq![' ']
    }
}

/// The text of a list whose elements are written as `items`.
pub open spec fn rendered(items: Seq<Seq<char>>) -> Seq<char> {
    seq!['{'] + body(items) + seq!['}']
}

/// A list under construction. Its view is the written form of each element
/// in order: plain text as it is, a sublist as its own rendering.
pub struct TclList {
    list: Vec<String>,
}

impl View for TclList {
    type V = Seq<Seq<char>>;

    closed spec fn view(&self) -> Seq<Seq<char>> {
        views(self.list@)
    }
}

impl TclList {
    /// An empty list.
    pub fn new() -> (r: TclList)
        ensures
            r@ == Seq::<Seq<char>>::empty(),
    {
        let r = TclList { list: Vec::new() };
        assert(r@ =~= Seq::<Seq<char>>::empty());
        r
    }

    /// Appends plain text; returns the list for chaining.
    pub fn add_element(&mut self, element: &str) -> (r: &mut TclList)
        ensures
            r@ == old(self)@.push(element@),
            *final(self) == *final(r),
    {
        let ghost before = self.list@;
        self.list.push(element.to_owned());
        assert(self@ =~= views(before).push(element@));
        self
    }

    /// Appends a finished list as a sublist; returns the list for chaining.
    pub fn add_sublist(&mut self, element: Box<TclList>) -> (r: &mut TclList)
        ensures
            r@ == old(self)@.push(rendered(element@)),
            *final(self) == *final(r),
    {
        let ghost before = self.list@;
        let text = element.to_string();
        self.list.push(text);
        assert(self@ =~= views(before).push(rendered(element@)));
        self
    }

    /// The written form of the list.
    pub fn to_string(&self) -> (r: String)
        ensures
            r@ == rendered(self@),
    {
        let mut out = String::new();
        push_char(&mut out, '{');
        let mut i: usize = 0;
        while i < self.list.len()
            invariant
                0 <= i <= self.list@.len(),
                out@ == seq!['{'] + body(views(self.list@.subrange(0, i as int))),
            decreases self.list@.len() - i,
        {
            let ghost pre = views(self.list@.subrange(0, i as int));
            let ghost next = views(self.list@.subrange(0, i + 1));
            assert(next.drop_last() =~= pre);
            out.append(self.list[i].as_str());
            push_char(&mut out, ' ');
            i = i + 1;
            assert(out@ =~= seq!['{'] + body(next));
        }
        push_char(&mut out, '}');
        assert(self.list@.subrange(0, self.list@.len() as int) =~= self.list@);
        out
    }
}

} // verus!
