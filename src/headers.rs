use vstd::prelude::*;

verus! {

/// One header line: a name and its value, both kept exactly as given.
#[derive(Debug)]
pub struct HTTPHeader {
    name: String,
    value: String,
}

impl View for HTTPHeader {
    type V = (Seq<char>, Seq<char>);

    closed spec fn view(&self) -> (Seq<char>, Seq<char>) {
        (self.name@, self.value@)
    }
}

impl HTTPHeader {
    pub fn build(name: &str, value: &str) -> (r: HTTPHeader)
        ensures
            r@ == (name@, value@),
    {
        HTTPHeader { name: name.to_owned(), value: value.to_owned() }
    }

    pub fn name(&self) -> (r: &String)
        ensures
            r@ == self@.0,
    {
        &self.name
    }

    pub fn value(&self) -> (r: &String)
        ensures
            r@ == self@.1,
    {
        &self.value
    }

    pub fn set_value(&mut self, value: &str)
        ensures
            final(self)@ == (old(self)@.0, value@),
    {
        self.value = value.to_owned();
    }
}

/// Index of the first header named `name`, or -1 where there is none.
pub open spec fn position(hs: Seq<(Seq<char>, Seq<char>)>, name: Seq<char>) -> int
    decreases hs.len(),
{
    if hs.len() == 0 {
        -1
    } else if hs[0].0 == name {
        0
    } else {
        let p = position(hs.drop_first(), name);
        if p < 0 {
            -1
        } else {
            p + 1
        }
    }
}

pub proof fn lemma_position_bound(hs: Seq<(Seq<char>, Seq<char>)>, name: Seq<char>)
    ensures
        -1 <= position(hs, name) < hs.len(),
        position(hs, name) >= 0 ==> hs[position(hs, name)].0 == name,
        position(hs, name) < 0 ==> forall|i: int| 0 <= i < hs.len() ==> hs[i].0 != name,
    decreases hs.len(),
{
    if hs.len() > 0 && hs[0].0 != name {
        lemma_position_bound(hs.drop_first(), name);
        if position(hs, name) < 0 {
            assert forall|i: int| 0 <= i < hs.len() implies hs[i].0 != name by {
                if i > 0 {
                    assert(hs[i] == hs.drop_first()[i - 1]);
                }
            }
        }
    }
}

/// The headers after setting `name` to `value`: the first header of that name
/// takes the value, or a new header is appended.
pub open spec fn set_spec(hs: Seq<(Seq<char>, Seq<char>)>, name: Seq<char>, value: Seq<char>) -> Seq<
    (Seq<char>, Seq<char>),
> {
    let i = position(hs, name);
    if i >= 0 {
        hs.update(i, (name, value))
    } else {
        hs.push((name, value))
    }
}

/// The headers after setting `name` to `value` only where no header has that name.
pub open spec fn set_if_absent_spec(
    hs: Seq<(Seq<char>, Seq<char>)>,
    name: Seq<char>,
    value: Seq<char>,
) -> Seq<(Seq<char>, Seq<char>)> {
    if position(hs, name) >= 0 {
        hs
    } else {
        hs.push((name, value))
    }
}

/// An ordered list of headers. Lookup is by exact name and finds the first match;
/// headers given to `from_headers` are kept as they come, duplicates included.
#[derive(Debug)]
pub struct HTTPHeaders {
    headers: Vec<HTTPHeader>,
}

impl View for HTTPHeaders {
    type V = Seq<(Seq<char>, Seq<char>)>;

    closed spec fn view(&self) -> Seq<(Seq<char>, Seq<char>)> {
        self.headers@.map_values(|h: HTTPHeader| h@)
    }
}

impl HTTPHeaders {
    pub fn new() -> (r: HTTPHeaders)
        ensures
            r@ == Seq::<(Seq<char>, Seq<char>)>::empty(),
    {
        let r = HTTPHeaders { headers: Vec::new() };
        assert(r@ =~= Seq::<(Seq<char>, Seq<char>)>::empty());
        r
    }

    pub fn from_headers(headers: Vec<(String, String)>) -> (r: HTTPHeaders)
        ensures
            r@ == headers@.map_values(|p: (String, String)| (p.0@, p.1@)),
    {
        let mut out: Vec<HTTPHeader> = Vec::new();
        let mut i: usize = 0;
        while i < headers.len()
            invariant
                i <= headers.len(),
                out@.map_values(|h: HTTPHeader| h@) == headers@.subrange(0, i as int).map_values(
                    |p: (String, String)| (p.0@, p.1@),
                ),
            decreases headers.len() - i,
        {
            let h = HTTPHeader::build(headers[i].0.as_str(), headers[i].1.as_str());
            let ghost before = out@.map_values(|h: HTTPHeader| h@);
            out.push(h);
            assert(out@.map_values(|h: HTTPHeader| h@) =~= before.push(h@));
            assert(headers@.subrange(0, i + 1) =~= headers@.subrange(0, i as int).push(
                headers@[i as int],
            ));
            i += 1;
            assert(out@.map_values(|h: HTTPHeader| h@) =~= headers@.subrange(
                0,
                i as int,
            ).map_values(|p: (String, String)| (p.0@, p.1@)));
        }
        assert(headers@.subrange(0, i as int) =~= headers@);
        HTTPHeaders { headers: out }
    }

    /// The number of headers.
    pub fn len(&self) -> (r: usize)
        ensures
            r == self@.len(),
    {
        self.headers.len()
    }

    /// The header at index `i`.
    pub fn at(&self, i: usize) -> (r: &HTTPHeader)
        requires
            i < self@.len(),
        ensures
            r@ == self@[i as int],
    {
        &self.headers[i]
    }

    fn index_of(&self, name: &str) -> (r: Option<usize>)
        ensures
            match r {
                Some(i) => position(self@, name@) == i as int,
                None => position(self@, name@) < 0,
            },
    {
        let key = name.to_owned();
        let ghost hs = self@;
        let mut i: usize = 0;
        assert(hs.subrange(0, hs.len() as int) =~= hs);
        while i < self.headers.len()
            invariant
                hs == self@,
                i <= hs.len(),
                key@ == name@,
                position(hs, name@) == (if position(hs.subrange(i as int, hs.len() as int), name@)
                    < 0 {
                    -1
                } else {
                    i + position(hs.subrange(i as int, hs.len() as int), name@)
                }),
            decreases hs.len() - i,
        {
            let ghost rest = hs.subrange(i as int, hs.len() as int);
            assert(rest[0] == self.headers@[i as int]@);
            if self.headers[i].name == key {
                return Some(i);
            }
            assert(rest.drop_first() =~= hs.subrange(i + 1, hs.len() as int));
            i += 1;
        }
        None
    }

    /// The first header named `name`.
    pub fn get_header(&self, name: &str) -> (r: Option<&HTTPHeader>)
        ensures
            match r {
                Some(h) => position(self@, name@) >= 0 && h@ == self@[position(self@, name@)],
                None => position(self@, name@) < 0,
            },
    {
        proof {
            lemma_position_bound(self@, name@);
        }
        match self.index_of(name) {
            Some(i) => Some(&self.headers[i]),
            None => None,
        }
    }

    pub fn set_header(&mut self, name: &str, value: &str)
        ensures
            final(self)@ == set_spec(old(self)@, name@, value@),
    {
        proof {
            lemma_position_bound(self@, name@);
        }
        match self.index_of(name) {
            Some(i) => {
                let h = HTTPHeader::build(name, value);
                self.headers.set(i, h);
                assert(self@ =~= set_spec(old(self)@, name@, value@));
            },
            None => {
                self.headers.push(HTTPHeader::build(name, value));
                assert(self@ =~= set_spec(old(self)@, name@, value@));
            },
        }
    }

    pub fn set_header_if_not_exists(&mut self, name: &str, value: &str)
        ensures
            final(self)@ == set_if_absent_spec(old(self)@, name@, value@),
    {
        match self.index_of(name) {
            Some(_) => {},
            None => {
                self.set_header(name, value);
            },
        }
    }
}

pub proof fn lemma_position_push(
    hs: Seq<(Seq<char>, Seq<char>)>,
    x: (Seq<char>, Seq<char>),
    name: Seq<char>,
)
    ensures
        position(hs.push(x), name) == (if position(hs, name) >= 0 {
            position(hs, name)
        } else if x.0 == name {
            hs.len() as int
        } else {
            -1
        }),
    decreases hs.len(),
{
    if hs.len() > 0 {
        assert(hs.push(x).drop_first() =~= hs.drop_first().push(x));
        lemma_position_push(hs.drop_first(), x, name);
    } else {
        assert(hs.push(x).drop_first() =~= hs);
    }
}

/// Setting a header only where it is absent twice in a row changes nothing the second time.
pub proof fn lemma_set_if_absent_twice(
    hs: Seq<(Seq<char>, Seq<char>)>,
    name: Seq<char>,
    value: Seq<char>,
)
    ensures
        set_if_absent_spec(set_if_absent_spec(hs, name, value), name, value) == set_if_absent_spec(
            hs,
            name,
            value,
        ),
        position(set_if_absent_spec(hs, name, value), name) >= 0,
{
    lemma_position_push(hs, (name, value), name);
}

} // verus!
