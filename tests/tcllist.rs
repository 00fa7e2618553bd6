use nscldaq_ringmaster::tcllist::TclList;

#[test]
fn new() {
    // empty TclList formats as {}
    let l = TclList::new();
    assert_eq!("{}", l.to_string());
}

#[test]
fn simple_1() {
    // format a list with one simple element:
    let mut l = TclList::new();
    l.add_element("String");
    assert_eq!("{String }", l.to_string());
}

#[test]
fn simple_n() {
    // format a list with a few simples:
    let mut l = TclList::new();
    l.add_element("1")
        .add_element("2")
        .add_element("3")
        .add_element("4");
    assert_eq!("{1 2 3 4 }", l.to_string());
}

#[test]
fn sublist_1() {
    // list with a simple sublist:
    let mut l = TclList::new();
    let mut sublist = TclList::new();
    sublist.add_element("a").add_element("b");
    l.add_sublist(Box::new(sublist));
    assert_eq!("{{a b } }", l.to_string());
}

#[test]
fn sublist_2() {
    // list with two sublists.
    let mut l = TclList::new();
    let mut sub1 = TclList::new();
    let mut sub2 = TclList::new();
    sub1.add_element("1").add_element("2").add_element("3");
    sub2.add_element("a").add_element("b").add_element("c");
    l.add_sublist(Box::new(sub1)).add_sublist(Box::new(sub2));
    assert_eq!("{{1 2 3 } {a b c } }", l.to_string());
}

#[test]
fn mixed() {
    // Mixed simple and sublist list:
    let mut l = TclList::new();
    let mut sub1 = TclList::new();
    let mut sub2 = TclList::new();
    sub1.add_element("1").add_element("2").add_element("3");
    sub2.add_element("a").add_element("b").add_element("c");
    l.add_element("outer1")
        .add_sublist(Box::new(sub1))
        .add_element("outer2")
        .add_sublist(Box::new(sub2))
        .add_element("final");
    assert_eq!("{outer1 {1 2 3 } outer2 {a b c } final }", l.to_string());
}

#[test]
fn nested() {
    let mut l = TclList::new();
    let mut sub1 = TclList::new();
    let mut sub2 = TclList::new();
    sub2.add_element("a").add_element("b").add_element("c");
    sub1.add_element("1")
        .add_sublist(Box::new(sub2))
        .add_element("2")
        .add_element("3");
    l.add_element("whoo")
        .add_sublist(Box::new(sub1))
        .add_element("hoo");
    assert_eq!("{whoo {1 {a b c } 2 3 } hoo }", l.to_string());
}

#[test]
fn sublist_after_later_edits_keeps_its_text() {
    // a sublist is written as it stood when it was added
    let mut inner = TclList::new();
    inner.add_element("x");
    let mut l = TclList::new();
    l.add_sublist(Box::new(inner)).add_element("y");
    assert_eq!("{{x } y }", l.to_string());
}
