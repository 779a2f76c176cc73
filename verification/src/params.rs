//! The name-value parameters of a request.

use crate::decimal::{decimal, decimal_string};
use vstd::prelude::*;
use vstd::std_specs::cmp::PartialEqSpecImpl;
use vstd::string::*;

verus! {

/// Whether some pair of `pairs` has the name `name`.
pub open spec fn has_name(pairs: Seq<(Seq<char>, Seq<char>)>, name: Seq<char>) -> bool {
    exists|i: int| 0 <= i < pairs.len() && (#[trigger] pairs[i]).0 == name
}

/// The place of a pair with the name `name`, where there is one.
pub open spec fn name_index(pairs: Seq<(Seq<char>, Seq<char>)>, name: Seq<char>) -> int {
    choose|i: int| 0 <= i < pairs.len() && (#[trigger] pairs[i]).0 == name
}

/// No two pairs have the same name.
pub open spec fn distinct_names(pairs: Seq<(Seq<char>, Seq<char>)>) -> bool {
    forall|i: int, j: int|
        0 <= i < j < pairs.len() ==> (#[trigger] pairs[i]).0 != (#[trigger] pairs[j]).0
}

/// The pairs after `name` is set to `value`: a pair with that name keeps
/// its place and takes the new value; otherwise the new pair comes last.
pub open spec fn put(pairs: Seq<(Seq<char>, Seq<char>)>, name: Seq<char>, value: Seq<char>) -> Seq<
    (Seq<char>, Seq<char>),
> {
    if has_name(pairs, name) {
        pairs.update(name_index(pairs, name), (name, value))
    } else {
        pairs.push((name, value))
    }
}

/// The mapping that a sequence of pairs with distinct names stands for.
pub open spec fn to_map(pairs: Seq<(Seq<char>, Seq<char>)>) -> Map<Seq<char>, Seq<char>> {
    Map::new(
        |name: Seq<char>| has_name(pairs, name),
        |name: Seq<char>| pairs[name_index(pairs, name)].1,
    )
}

/// Setting a name keeps the names distinct and is an insertion into the
/// mapping.
pub proof fn lemma_put(pairs: Seq<(Seq<char>, Seq<char>)>, name: Seq<char>, value: Seq<char>)
    requires
        distinct_names(pairs),
    ensures
        distinct_names(put(pairs, name, value)),
        to_map(put(pairs, name, value)) == to_map(pairs).insert(name, value),
{
    let after = put(pairs, name, value);
    if has_name(pairs, name) {
        let k = name_index(pairs, name);
        assert(after[k] == (name, value));
        assert forall|i: int, j: int| 0 <= i < j < after.len() implies (#[trigger] after[i]).0 != (
        #[trigger] after[j]).0 by {
            assert(pairs[i].0 != pairs[j].0);
        }
        assert forall|n: Seq<char>| has_name(after, n) <==> has_name(pairs, n) || n == name by {
            if has_name(after, n) {
                let i = name_index(after, n);
                assert(pairs[i].0 == after[i].0);
            }
            if has_name(pairs, n) {
                let i = name_index(pairs, n);
                assert(after[i].0 == pairs[i].0);
            }
            if n == name {
                assert(after[k].0 == n);
            }
        }
        assert forall|n: Seq<char>| has_name(after, n) implies #[trigger] to_map(after)[n]
            == to_map(pairs).insert(name, value)[n] by {
            let i = name_index(after, n);
            if n != name {
                let j = name_index(pairs, n);
                assert(after[j].0 == n);
                assert(i == j) by {
                    if i < j {
                        assert(after[i].0 != after[j].0);
                    } else if j < i {
                        assert(after[j].0 != after[i].0);
                    }
                }
            } else {
                assert(i == k) by {
                    if i < k {
                        assert(after[i].0 != after[k].0);
                    } else if k < i {
                        assert(after[k].0 != after[i].0);
                    }
                }
            }
        }
    } else {
        let k = pairs.len() as int;
        assert(after[k] == (name, value));
        assert forall|i: int, j: int| 0 <= i < j < after.len() implies (#[trigger] after[i]).0 != (
        #[trigger] after[j]).0 by {
            if j < k {
                assert(pairs[i].0 != pairs[j].0);
            } else {
                assert(pairs[i].0 != name);
            }
        }
        assert forall|n: Seq<char>| has_name(after, n) <==> has_name(pairs, n) || n == name by {
            if has_name(after, n) {
                let i = name_index(after, n);
                if i < k {
                    assert(pairs[i].0 == n);
                }
            }
            if has_name(pairs, n) {
                let i = name_index(pairs, n);
                assert(after[i].0 == pairs[i].0);
            }
            if n == name {
                assert(after[k].0 == n);
            }
        }
        assert forall|n: Seq<char>| has_name(after, n) implies #[trigger] to_map(after)[n]
            == to_map(pairs).insert(name, value)[n] by {
            let i = name_index(after, n);
            if n != name {
                let j = name_index(pairs, n);
                assert(after[j].0 == n);
                assert(i == j) by {
                    if i < j {
                        assert(after[i].0 != after[j].0);
                    } else if j < i {
                        assert(after[j].0 != after[i].0);
                    }
                }
            } else {
                assert(i == k) by {
                    if i < k {
                        assert(after[i].0 != after[k].0);
                    }
                }
            }
        }
    }
    assert(to_map(after) =~= to_map(pairs).insert(name, value));
}

/// The names and values that a vector of strings holds.
spec fn pairs_of(entries: Seq<(String, String)>) -> Seq<(Seq<char>, Seq<char>)> {
    Seq::new(entries.len(), |i: int| (entries[i].0@, entries[i].1@))
}

/// The parameters of a request: a mapping from names to values, such as
/// `REQUEST_METHOD` to `GET`. Setting a name twice keeps the later value.
///
/// The view is the mapping; `pairs` gives the pairs in the order in which
/// they are sent. Two sets of parameters are equal if they are the same
/// mapping, in whatever order.
#[derive(Debug)]
pub struct Params {
    entries: Vec<(String, String)>,
}

impl View for Params {
    type V = Map<Seq<char>, Seq<char>>;

    open spec fn view(&self) -> Map<Seq<char>, Seq<char>> {
        to_map(self.pairs())
    }
}

impl Params {
    /// The pairs of names and values, in the order in which they are sent.
    pub closed spec fn pairs(&self) -> Seq<(Seq<char>, Seq<char>)> {
        pairs_of(self.entries@)
    }

    /// No name occurs twice.
    #[verifier::type_invariant]
    spec fn names_are_distinct(&self) -> bool {
        distinct_names(self.pairs())
    }

    /// Parameters without any pair.
    pub fn new() -> (params: Self)
        ensures
            params.pairs() == Seq::<(Seq<char>, Seq<char>)>::empty(),
    {
        let entries: Vec<(String, String)> = Vec::new();
        assert(pairs_of(entries@) =~= Seq::<(Seq<char>, Seq<char>)>::empty());
        Params { entries }
    }

    /// Sets the parameter `key` to `value`. A parameter of that name keeps
    /// its place and takes the new value; otherwise the pair is added last.
    pub fn custom(self, key: &str, value: &str) -> (params: Self)
        ensures
            params.pairs() == put(self.pairs(), key@, value@),
            params@ == self@.insert(key@, value@),
            distinct_names(params.pairs()),
    {
        proof {
            use_type_invariant(&self);
            lemma_put(self.pairs(), key@, value@);
        }
        let ghost before = self.pairs();
        let name = key.to_owned();
        let mut entries = self.entries;
        let mut i: usize = 0;
        while i < entries.len()
            invariant
                i <= entries.len(),
                entries == self.entries,
                name@ == key@,
                forall|j: int| 0 <= j < i ==> (#[trigger] before[j]).0 != key@,
                before == pairs_of(entries@),
                before == self.pairs(),
                distinct_names(before),
                distinct_names(put(before, key@, value@)),
                to_map(put(before, key@, value@)) == to_map(before).insert(key@, value@),
            decreases entries.len() - i,
        {
            if entries[i].0 == name {
                assert(before[i as int].0 == key@);
                assert(name_index(before, key@) == i) by {
                    let k = name_index(before, key@);
                    if k < i {
                        assert(before[k].0 != key@);
                    } else if i < k {
                        assert(before[i as int].0 != before[k].0);
                    }
                }
                entries[i] = (name, value.to_owned());
                assert(pairs_of(entries@) =~= put(before, key@, value@));
                return Params { entries };
            }
            i = i + 1;
        }
        assert(!has_name(before, key@));
        entries.push((name, value.to_owned()));
        assert(pairs_of(entries@) =~= put(before, key@, value@));
        Params { entries }
    }

    /// Sets `GATEWAY_INTERFACE`: the version of the gateway interface, such as `CGI/1.1`.
    pub fn gateway_interface(self, gateway_interface: &str) -> (params: Self)
        ensures
            params.pairs() == put(self.pairs(), "GATEWAY_INTERFACE"@, gateway_interface@),
            params@ == self@.insert("GATEWAY_INTERFACE"@, gateway_interface@),
            distinct_names(params.pairs()),
    {
        self.custom("GATEWAY_INTERFACE", gateway_interface)
    }

    /// Sets `SERVER_SOFTWARE`: the name and version of the server software.
    pub fn server_software(self, server_software: &str) -> (params: Self)
        ensures
            params.pairs() == put(self.pairs(), "SERVER_SOFTWARE"@, server_software@),
            params@ == self@.insert("SERVER_SOFTWARE"@, server_software@),
            distinct_names(params.pairs()),
    {
        self.custom("SERVER_SOFTWARE", server_software)
    }

    /// Sets `SERVER_PROTOCOL`: the protocol of the request, such as `HTTP/1.1`.
    pub fn server_protocol(self, server_protocol: &str) -> (params: Self)
        ensures
            params.pairs() == put(self.pairs(), "SERVER_PROTOCOL"@, server_protocol@),
            params@ == self@.insert("SERVER_PROTOCOL"@, server_protocol@),
            distinct_names(params.pairs()),
    {
        self.custom("SERVER_PROTOCOL", server_protocol)
    }

    /// Sets `REQUEST_METHOD`: the method of the request, such as `GET`.
    pub fn request_method(self, request_method: &str) -> (params: Self)
        ensures
            params.pairs() == put(self.pairs(), "REQUEST_METHOD"@, request_method@),
            params@ == self@.insert("REQUEST_METHOD"@, request_method@),
            distinct_names(params.pairs()),
    {
        self.custom("REQUEST_METHOD", request_method)
    }

    /// Sets `SCRIPT_FILENAME`: the full path of the script file.
    pub fn script_filename(self, script_filename: &str) -> (params: Self)
        ensures
            params.pairs() == put(self.pairs(), "SCRIPT_FILENAME"@, script_filename@),
            params@ == self@.insert("SCRIPT_FILENAME"@, script_filename@),
            distinct_names(params.pairs()),
    {
        self.custom("SCRIPT_FILENAME", script_filename)
    }

    /// Sets `SCRIPT_NAME`: the part of the URI that names the script.
    pub fn script_name(self, script_name: &str) -> (params: Self)
        ensures
            params.pairs() == put(self.pairs(), "SCRIPT_NAME"@, script_name@),
            params@ == self@.insert("SCRIPT_NAME"@, script_name@),
            distinct_names(params.pairs()),
    {
        self.custom("SCRIPT_NAME", script_name)
    }

    /// Sets `QUERY_STRING`: the query part of the URL.
    pub fn query_string(self, query_string: &str) -> (params: Self)
        ensures
            params.pairs() == put(self.pairs(), "QUERY_STRING"@, query_string@),
            params@ == self@.insert("QUERY_STRING"@, query_string@),
            distinct_names(params.pairs()),
    {
        self.custom("QUERY_STRING", query_string)
    }

    /// Sets `REQUEST_URI`: the full URI of the request.
    pub fn request_uri(self, request_uri: &str) -> (params: Self)
        ensures
            params.pairs() == put(self.pairs(), "REQUEST_URI"@, request_uri@),
            params@ == self@.insert("REQUEST_URI"@, request_uri@),
            distinct_names(params.pairs()),
    {
        self.custom("REQUEST_URI", request_uri)
    }

    /// Sets `DOCUMENT_ROOT`: the directory that documents are served from.
    pub fn document_root(self, document_root: &str) -> (params: Self)
        ensures
            params.pairs() == put(self.pairs(), "DOCUMENT_ROOT"@, document_root@),
            params@ == self@.insert("DOCUMENT_ROOT"@, document_root@),
            distinct_names(params.pairs()),
    {
        self.custom("DOCUMENT_ROOT", document_root)
    }

    /// Sets `DOCUMENT_URI`: the URI of the document.
    pub fn document_uri(self, document_uri: &str) -> (params: Self)
        ensures
            params.pairs() == put(self.pairs(), "DOCUMENT_URI"@, document_uri@),
            params@ == self@.insert("DOCUMENT_URI"@, document_uri@),
            distinct_names(params.pairs()),
    {
        self.custom("DOCUMENT_URI", document_uri)
    }

    /// Sets `REMOTE_ADDR`: the address of the remote client.
    pub fn remote_addr(self, remote_addr: &str) -> (params: Self)
        ensures
            params.pairs() == put(self.pairs(), "REMOTE_ADDR"@, remote_addr@),
            params@ == self@.insert("REMOTE_ADDR"@, remote_addr@),
            distinct_names(params.pairs()),
    {
        self.custom("REMOTE_ADDR", remote_addr)
    }

    /// Sets `REMOTE_PORT`: the port of the remote client, in decimal notation.
    pub fn remote_port(self, remote_port: u16) -> (params: Self)
        ensures
            params.pairs() == put(self.pairs(), "REMOTE_PORT"@, decimal(remote_port as nat)),
            params@ == self@.insert("REMOTE_PORT"@, decimal(remote_port as nat)),
            distinct_names(params.pairs()),
    {
        let value = decimal_string(remote_port as u64);
        self.custom("REMOTE_PORT", value.as_str())
    }

    /// Sets `SERVER_ADDR`: the address of the server.
    pub fn server_addr(self, server_addr: &str) -> (params: Self)
        ensures
            params.pairs() == put(self.pairs(), "SERVER_ADDR"@, server_addr@),
            params@ == self@.insert("SERVER_ADDR"@, server_addr@),
            distinct_names(params.pairs()),
    {
        self.custom("SERVER_ADDR", server_addr)
    }

    /// Sets `SERVER_PORT`: the port of the server, in decimal notation.
    pub fn server_port(self, server_port: u16) -> (params: Self)
        ensures
            params.pairs() == put(self.pairs(), "SERVER_PORT"@, decimal(server_port as nat)),
            params@ == self@.insert("SERVER_PORT"@, decimal(server_port as nat)),
            distinct_names(params.pairs()),
    {
        let value = decimal_string(server_port as u64);
        self.custom("SERVER_PORT", value.as_str())
    }

    /// Sets `SERVER_NAME`: the name of the server.
    pub fn server_name(self, server_name: &str) -> (params: Self)
        ensures
            params.pairs() == put(self.pairs(), "SERVER_NAME"@, server_name@),
            params@ == self@.insert("SERVER_NAME"@, server_name@),
            distinct_names(params.pairs()),
    {
        self.custom("SERVER_NAME", server_name)
    }

    /// Sets `CONTENT_TYPE`: the media type of the request body.
    pub fn content_type(self, content_type: &str) -> (params: Self)
        ensures
            params.pairs() == put(self.pairs(), "CONTENT_TYPE"@, content_type@),
            params@ == self@.insert("CONTENT_TYPE"@, content_type@),
            distinct_names(params.pairs()),
    {
        self.custom("CONTENT_TYPE", content_type)
    }

    /// Sets `CONTENT_LENGTH`: the number of bytes of the request body, in decimal notation.
    pub fn content_length(self, content_length: usize) -> (params: Self)
        ensures
            params.pairs() == put(self.pairs(), "CONTENT_LENGTH"@, decimal(content_length as nat)),
            params@ == self@.insert("CONTENT_LENGTH"@, decimal(content_length as nat)),
            distinct_names(params.pairs()),
    {
        let value = decimal_string(content_length as u64);
        self.custom("CONTENT_LENGTH", value.as_str())
    }

    /// The number of parameters.
    pub fn len(&self) -> (n: usize)
        ensures
            n == self.pairs().len(),
    {
        self.entries.len()
    }

    /// Whether there is no parameter.
    pub fn is_empty(&self) -> (b: bool)
        ensures
            b == (self.pairs().len() == 0),
    {
        self.entries.len() == 0
    }

    /// The value of the parameter `key`, if it is set.
    pub fn get(&self, key: &str) -> (value: Option<&str>)
        ensures
            match value {
                Some(v) => self@.contains_key(key@) && v@ == self@[key@],
                None => !self@.contains_key(key@),
            },
    {
        proof {
            use_type_invariant(self);
        }
        let ghost pairs = self.pairs();
        let name = key.to_owned();
        let mut i: usize = 0;
        while i < self.entries.len()
            invariant
                i <= self.entries.len(),
                name@ == key@,
                pairs == pairs_of(self.entries@),
                distinct_names(pairs),
                forall|j: int| 0 <= j < i ==> (#[trigger] pairs[j]).0 != key@,
            decreases self.entries.len() - i,
        {
            if self.entries[i].0 == name {
                assert(pairs[i as int].0 == key@);
                assert(name_index(pairs, key@) == i) by {
                    let k = name_index(pairs, key@);
                    if k < i {
                        assert(pairs[k].0 != key@);
                    } else if i < k {
                        assert(pairs[i as int].0 != pairs[k].0);
                    }
                }
                return Some(self.entries[i].1.as_str());
            }
            i = i + 1;
        }
        assert(!has_name(pairs, key@));
        None
    }

    /// Gives up the parameters as pairs of strings, in the order in which
    /// they are sent.
    pub fn into_pairs(self) -> (entries: Vec<(String, String)>)
        ensures
            entries@.len() == self.pairs().len(),
            forall|i: int|
                0 <= i < entries@.len() ==> (#[trigger] entries@[i]).0@ == self.pairs()[i].0
                    && entries@[i].1@ == self.pairs()[i].1,
            distinct_names(self.pairs()),
    {
        proof {
            use_type_invariant(&self);
        }
        self.entries
    }
}

impl Default for Params {
    /// The parameters that every request starts from: the gateway
    /// interface, the server software and the server protocol.
    fn default() -> (params: Self)
        ensures
            params.pairs() == seq![
                ("GATEWAY_INTERFACE"@, "FastCGI/1.0"@),
                ("SERVER_SOFTWARE"@, "fastcgi-client-rs"@),
                ("SERVER_PROTOCOL"@, "HTTP/1.1"@),
            ],
    {
        let first = Params::new().gateway_interface("FastCGI/1.0");
        let second = first.server_software("fastcgi-client-rs");
        let third = second.server_protocol("HTTP/1.1");
        proof {
            reveal_strlit("GATEWAY_INTERFACE");
            reveal_strlit("SERVER_SOFTWARE");
            reveal_strlit("SERVER_PROTOCOL");
            let a = ("GATEWAY_INTERFACE"@, "FastCGI/1.0"@);
            let b = ("SERVER_SOFTWARE"@, "fastcgi-client-rs"@);
            let c = ("SERVER_PROTOCOL"@, "HTTP/1.1"@);
            assert(a.0.len() == 17 && b.0.len() == 15);
            assert(b.0[7] == 'S' && c.0[7] == 'P');
            let none = Seq::<(Seq<char>, Seq<char>)>::empty();
            assert(!has_name(none, a.0));
            assert(first.pairs() =~= seq![a]);
            assert(!has_name(seq![a], b.0)) by {
                if has_name(seq![a], b.0) {
                    let i = name_index(seq![a], b.0);
                    assert(seq![a][i] == a);
                }
            }
            assert(second.pairs() =~= seq![a, b]);
            assert(!has_name(seq![a, b], c.0)) by {
                if has_name(seq![a, b], c.0) {
                    let i = name_index(seq![a, b], c.0);
                    assert(seq![a, b][i] == a || seq![a, b][i] == b);
                }
            }
            assert(third.pairs() =~= seq![a, b, c]);
        }
        third
    }
}

impl Params {
    /// Whether every parameter of `self` is a parameter of `other`, with
    /// the same value.
    fn is_part_of(&self, other: &Params) -> (b: bool)
        ensures
            b == (forall|name: Seq<char>| #[trigger]
                self@.contains_key(name) ==> other@.contains_key(name) && other@[name]
                    == self@[name]),
    {
        proof {
            use_type_invariant(self);
        }
        let ghost pairs = self.pairs();
        let mut i: usize = 0;
        while i < self.entries.len()
            invariant
                i <= self.entries.len(),
                pairs == pairs_of(self.entries@),
                pairs == self.pairs(),
                distinct_names(pairs),
                forall|j: int|
                    0 <= j < i ==> other@.contains_key((#[trigger] pairs[j]).0)
                        && other@[pairs[j].0] == pairs[j].1,
            decreases self.entries.len() - i,
        {
            let found = match other.get(self.entries[i].0.as_str()) {
                Some(value) => value.to_owned() == self.entries[i].1,
                None => false,
            };
            proof {
                let name = pairs[i as int].0;
                assert(has_name(pairs, name));
                let k = name_index(pairs, name);
                assert(k == i) by {
                    if k < i {
                        assert(pairs[k].0 != pairs[i as int].0);
                    } else if i < k {
                        assert(pairs[i as int].0 != pairs[k].0);
                    }
                }
                assert(self@.contains_key(name) && self@[name] == pairs[i as int].1);
            }
            if !found {
                return false;
            }
            i = i + 1;
        }
        proof {
            assert forall|name: Seq<char>| #[trigger]
                self@.contains_key(name) implies other@.contains_key(name) && other@[name]
                == self@[name] by {
                let k = name_index(pairs, name);
                assert(pairs[k].0 == name);
            }
        }
        true
    }
}

impl Clone for Params {
    /// The same parameters, in the same order.
    fn clone(&self) -> (params: Self)
        ensures
            params.pairs() == self.pairs(),
    {
        proof {
            use_type_invariant(self);
        }
        let mut entries: Vec<(String, String)> = Vec::new();
        let mut i: usize = 0;
        while i < self.entries.len()
            invariant
                i <= self.entries.len(),
                entries@.len() == i,
                forall|j: int|
                    0 <= j < i ==> (#[trigger] entries@[j]).0@ == self.entries@[j].0@
                        && entries@[j].1@ == self.entries@[j].1@,
            decreases self.entries.len() - i,
        {
            entries.push((self.entries[i].0.clone(), self.entries[i].1.clone()));
            i = i + 1;
        }
        assert(pairs_of(entries@) =~= pairs_of(self.entries@));
        Params { entries }
    }
}

impl PartialEq for Params {
    /// Whether the two are the same mapping.
    fn eq(&self, other: &Self) -> (b: bool) {
        let b = self.is_part_of(other) && other.is_part_of(self);
        proof {
            if b {
                assert(self@ =~= other@);
            }
        }
        b
    }
}

impl PartialEqSpecImpl for Params {
    open spec fn obeys_eq_spec() -> bool {
        true
    }

    open spec fn eq_spec(&self, other: &Params) -> bool {
        self@ == other@
    }
}

impl Eq for Params {

}

} // verus!
