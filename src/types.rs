//! Names and ids that the platform hands out, kept as the text it shows.
use vstd::prelude::*;

verus! {

/// The name of a grader.
#[derive(Debug, Hash, PartialEq, Eq, PartialOrd, Ord)]
pub struct GraderName {
    name: String,
}

impl View for GraderName {
    type V = Seq<char>;

    closed spec fn view(&self) -> Seq<char> {
        self.name@
    }
}

impl Clone for GraderName {
    fn clone(&self) -> (r: Self)
        ensures
            r@ == self@,
    {
        GraderName { name: self.name.clone() }
    }
}

impl GraderName {
    pub fn new(name: String) -> (r: Self)
        ensures
            r@ == name@,
    {
        GraderName { name }
    }

    pub fn as_str(&self) -> (r: &str)
        ensures
            r@ == self@,
    {
        self.name.as_str()
    }
}

/// A student's name as the roster shows it.
#[derive(Debug, Hash, PartialEq, Eq, PartialOrd, Ord)]
pub struct StudentName {
    name: String,
}

impl View for StudentName {
    type V = Seq<char>;

    closed spec fn view(&self) -> Seq<char> {
        self.name@
    }
}

impl Clone for StudentName {
    fn clone(&self) -> (r: Self)
        ensures
            r@ == self@,
    {
        StudentName { name: self.name.clone() }
    }
}

impl StudentName {
    pub fn new(name: String) -> (r: Self)
        ensures
            r@ == name@,
    {
        StudentName { name }
    }

    pub fn as_str(&self) -> (r: &str)
        ensures
            r@ == self@,
    {
        self.name.as_str()
    }
}

/// A student's id in the roster.
#[derive(Debug, Hash, PartialEq, Eq)]
pub struct StudentId {
    id: String,
}

impl View for StudentId {
    type V = Seq<char>;

    closed spec fn view(&self) -> Seq<char> {
        self.id@
    }
}

impl Clone for StudentId {
    fn clone(&self) -> (r: Self)
        ensures
            r@ == self@,
    {
        StudentId { id: self.id.clone() }
    }
}

impl StudentId {
    pub fn new(id: String) -> (r: Self)
        ensures
            r@ == id@,
    {
        StudentId { id }
    }

    pub fn same_as(&self, other: &StudentId) -> (r: bool)
        ensures
            r == (self@ == other@),
    {
        self.id == other.id
    }

    pub fn as_str(&self) -> (r: &str)
        ensures
            r@ == self@,
    {
        self.id.as_str()
    }
}

/// A student's email address as the roster shows it.
#[derive(Debug)]
pub struct Email {
    email: String,
}

impl View for Email {
    type V = Seq<char>;

    closed spec fn view(&self) -> Seq<char> {
        self.email@
    }
}

impl Clone for Email {
    fn clone(&self) -> (r: Self)
        ensures
            r@ == self@,
    {
        Email { email: self.email.clone() }
    }
}

impl Email {
    pub fn new(email: String) -> (r: Self)
        ensures
            r@ == email@,
    {
        Email { email }
    }

    pub fn as_str(&self) -> (r: &str)
        ensures
            r@ == self@,
    {
        self.email.as_str()
    }
}

} // verus!
