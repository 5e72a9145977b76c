//! The two front doors to the registry: a local adapter holding the state
//! in-process, and the data half of the remote adapter (host, port and
//! address formatting; the HTTP transport itself lives outside the
//! library).

use vstd::prelude::*;
use vstd::string::StringExecFns;
use crate::data::{ActiveMock, MockDefinition, MockIdentification};
use crate::state::{
    MockServerState, reg_wf, spec_add, spec_delete, spec_delete_all, def_valid, first_index_of,
    has_id,
};

verus! {

/// The decimal digit `d` as a character.
pub open spec fn digit_char(d: int) -> char {
    if d == 0 {
        '0'
    } else if d == 1 {
        '1'
    } else if d == 2 {
        '2'
    } else if d == 3 {
        '3'
    } else if d == 4 {
        '4'
    } else if d == 5 {
        '5'
    } else if d == 6 {
        '6'
    } else if d == 7 {
        '7'
    } else if d == 8 {
        '8'
    } else {
        '9'
    }
}

/// The decimal rendering of a non-negative number.
pub open spec fn dec_digits(n: int) -> Seq<char>
    decreases n,
{
    if n < 10 {
        seq![digit_char(n)]
    } else {
        dec_digits(n / 10).push(digit_char(n % 10))
    }
}

/// Appends the decimal rendering of `n`.
fn push_decimal(n: u16, out: &mut String)
    ensures
        final (out)@ == old(out)@ + dec_digits(n as int),
    decreases n,
{
    if n >= 10 {
        push_decimal(n / 10, out);
    }
    let d = n % 10;
    let ds: &str = if d == 0 {
        "0"
    } else if d == 1 {
        "1"
    } else if d == 2 {
        "2"
    } else if d == 3 {
        "3"
    } else if d == 4 {
        "4"
    } else if d == 5 {
        "5"
    } else if d == 6 {
        "6"
    } else if d == 7 {
        "7"
    } else if d == 8 {
        "8"
    } else {
        "9"
    };
    proof {
        reveal_strlit("0");
        reveal_strlit("1");
        reveal_strlit("2");
        reveal_strlit("3");
        reveal_strlit("4");
        reveal_strlit("5");
        reveal_strlit("6");
        reveal_strlit("7");
        reveal_strlit("8");
        reveal_strlit("9");
        assert(ds@ =~= seq![digit_char(d as int)]);
    }
    out.append(ds);
    proof {
        if n >= 10 {
            assert(out@ =~= old(out)@ + dec_digits(n as int));
        } else {
            assert(out@ =~= old(out)@ + dec_digits(n as int));
        }
    }
}

/// The `host:port` rendering shared by the two adapters.
fn format_address(host: &String, port: u16) -> (r: String)
    ensures
        r@ == host@ + seq![':'] + dec_digits(port as int),
{
    let mut s = host.clone();
    proof {
        reveal_strlit(":");
    }
    s.append(":");
    push_decimal(port, &mut s);
    proof {
        assert(s@ =~= host@ + seq![':'] + dec_digits(port as int));
    }
    s
}

/// Reaches a mock server over its management HTTP API. This half of the
/// adapter carries the server's coordinates; the transport that speaks
/// HTTP lives outside the library and consumes these accessors.
#[derive(Debug)]
pub struct RemoteMockServerAdapter {
    pub host: String,
    pub port: u16,
}

impl RemoteMockServerAdapter {
    pub fn new(host: String, port: u16) -> (r: RemoteMockServerAdapter)
        ensures
            r.host == host,
            r.port == port,
    {
        RemoteMockServerAdapter { host, port }
    }

    pub fn server_port(&self) -> (r: u16)
        ensures
            r == self.port,
    {
        self.port
    }

    pub fn server_host(&self) -> (r: String)
        ensures
            r@ == self.host@,
    {
        self.host.clone()
    }

    /// The server's `host:port` address.
    pub fn server_address(&self) -> (r: String)
        ensures
            r@ == self.host@ + seq![':'] + dec_digits(self.port as int),
    {
        format_address(&self.host, self.port)
    }

    /// Whether the management API reported a created mock.
    pub fn create_succeeded(&self, status: u16) -> (r: bool)
        ensures
            r == (status == 201),
    {
        status == 201
    }

    /// Whether the management API reported a found mock.
    pub fn fetch_succeeded(&self, status: u16) -> (r: bool)
        ensures
            r == (status == 200),
    {
        status == 200
    }

    /// Whether the management API accepted a delete.
    pub fn delete_succeeded(&self, status: u16) -> (r: bool)
        ensures
            r == (status == 202),
    {
        status == 202
    }
}

/// Reaches the registry directly, in-process.
#[derive(Debug)]
pub struct LocalMockServerAdapter {
    pub host: String,
    pub port: u16,
    pub local_state: MockServerState,
}

impl LocalMockServerAdapter {
    pub fn new(host: String, port: u16, local_state: MockServerState) -> (r:
        LocalMockServerAdapter)
        ensures
            r.host == host,
            r.port == port,
            r.local_state == local_state,
    {
        LocalMockServerAdapter { host, port, local_state }
    }

    pub fn server_port(&self) -> (r: u16)
        ensures
            r == self.port,
    {
        self.port
    }

    pub fn server_host(&self) -> (r: String)
        ensures
            r@ == self.host@,
    {
        self.host.clone()
    }

    /// The server's `host:port` address.
    pub fn server_address(&self) -> (r: String)
        ensures
            r@ == self.host@ + seq![':'] + dec_digits(self.port as int),
    {
        format_address(&self.host, self.port)
    }

    /// Stores a definition and returns its identification.
    pub fn create_mock(&mut self, mock: &MockDefinition) -> (r: Result<MockIdentification, String>)
        requires
            reg_wf(old(self).local_state@),
            old(self).local_state@.next_id < usize::MAX,
        ensures
            reg_wf(final (self).local_state@),
            final (self).local_state@ == spec_add(old(self).local_state@, mock@),
            final (self).host == old(self).host && final (self).port == old(self).port,
            r matches Ok(mid) ==> def_valid(mock@.request) && mid.mock_id as int == old(
                self,
            ).local_state@.next_id,
            r is Err <==> !def_valid(mock@.request),
    {
        match self.local_state.add_new_mock(mock.duplicate()) {
            Ok(id) => Ok(MockIdentification::new(id)),
            Err(e) => Err(e),
        }
    }

    /// A snapshot of the mock with this id, or an error when none exists.
    pub fn fetch_mock(&self, mock_id: usize) -> (r: Result<ActiveMock, String>)
        ensures
            match first_index_of(self.local_state@.mocks, mock_id as int, 0) {
                Some(i) => r matches Ok(m) && m@ == self.local_state@.mocks[i],
                None => r is Err,
            },
    {
        match self.local_state.read_one(mock_id) {
            Some(mock) => Ok(mock),
            None => Err("Cannot find mock".to_owned()),
        }
    }

    /// Deletes the mock with this id, or errors when none exists.
    pub fn delete_mock(&mut self, mock_id: usize) -> (r: Result<(), String>)
        requires
            reg_wf(old(self).local_state@),
        ensures
            reg_wf(final (self).local_state@),
            final (self).local_state@ == spec_delete(old(self).local_state@, mock_id as int),
            final (self).host == old(self).host && final (self).port == old(self).port,
            r is Ok <==> has_id(old(self).local_state@, mock_id as int),
            !has_id(final (self).local_state@, mock_id as int),
    {
        let deleted = self.local_state.delete_one(mock_id);
        if deleted {
            Ok(())
        } else {
            Err("Mock could not deleted".to_owned())
        }
    }

    /// Clears the registry.
    pub fn delete_all_mocks(&mut self) -> (r: Result<(), String>)
        requires
            reg_wf(old(self).local_state@),
        ensures
            reg_wf(final (self).local_state@),
            final (self).local_state@ == spec_delete_all(old(self).local_state@),
            final (self).host == old(self).host && final (self).port == old(self).port,
            r is Ok,
    {
        self.local_state.delete_all();
        Ok(())
    }
}

} // verus!
