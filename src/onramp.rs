//! The decisions of the TCP source: its configuration and the bookkeeping
//! of connection tokens. Sockets and polling are left to the caller.
use vstd::prelude::*;

verus! {

/// Where the TCP source listens.
#[derive(Debug, Clone)]
pub struct Config {
    pub port: u32,
    pub host: String,
}

impl Default for Config {
    fn default() -> (r: Config)
        ensures
            r.port == 0,
            r.host@ == Seq::<char>::empty(),
    {
        Config { port: 0, host: String::new() }
    }
}

/// Why a source could not be made.
#[derive(Debug, Clone, Copy, PartialEq, Eq, Structural)]
pub enum OnrampError {
    /// No configuration was given.
    MissingConfig,
}

/// A TCP source.
#[derive(Debug)]
pub struct Tcp {
    pub config: Config,
}

impl Tcp {
    /// A source for the given configuration; one is required.
    pub fn from_config(config: Option<Config>) -> (r: Result<Tcp, OnrampError>)
        ensures
            match config {
                Some(c) => r is Ok && r->Ok_0.config == c,
                None => r == Err::<Tcp, OnrampError>(OnrampError::MissingConfig),
            },
    {
        match config {
            Some(config) => Ok(Tcp { config }),
            None => Err(OnrampError::MissingConfig),
        }
    }

    /// The codec that decodes what this source reads, unless another is named.
    pub fn default_codec(&self) -> (r: &'static str)
        ensures
            r@ == "json"@,
    {
        "json"
    }
}

/// The token of the listening socket.
pub const LISTENER_TOKEN: usize = 0;

/// Connection tokens. Token 0 belongs to the listener. A new connection gets
/// the token returned last, or else a token never used before; a closed
/// connection returns its token.
#[derive(Debug)]
pub struct Tokens {
    in_use: Vec<bool>,
    returned: Vec<usize>,
}

/// The mathematical form of `Tokens`: which tokens are in use, and the
/// returned ones in the order they came back.
pub struct TokensV {
    pub in_use: Seq<bool>,
    pub returned: Seq<usize>,
}

impl View for Tokens {
    type V = TokensV;

    closed spec fn view(&self) -> TokensV {
        TokensV { in_use: self.in_use@, returned: self.returned@ }
    }
}

impl TokensV {
    /// The listener holds token 0, and the returned tokens are exactly the
    /// connection tokens not in use, each once.
    pub open spec fn wf(self) -> bool {
        &&& self.in_use.len() >= 1
        &&& self.in_use[LISTENER_TOKEN as int]
        &&& forall|i: int, j: int| 0 <= i < j < self.returned.len() ==> self.returned[i] != self.returned[j]
        &&& forall|i: int| 0 <= i < self.returned.len() ==> {
            let t = #[trigger] self.returned[i];
            &&& 1 <= t < self.in_use.len()
            &&& !self.in_use[t as int]
        }
        &&& forall|t: int| 1 <= t < self.in_use.len() && !#[trigger] self.in_use[t] ==> self.returned.contains(t as usize)
    }
}

impl Tokens {
    /// Only the listener's token is in use.
    pub fn new() -> (r: Tokens)
        ensures
            r@.wf(),
            r@.in_use == seq![true],
            r@.returned == Seq::<usize>::empty(),
    {
        let mut in_use: Vec<bool> = Vec::new();
        in_use.push(true);
        let r = Tokens { in_use, returned: Vec::new() };
        proof {
            assert(r@.in_use =~= seq![true]);
        }
        r
    }

    /// Whether token `t` belongs to an open connection or the listener.
    pub fn is_in_use(&self, t: usize) -> (r: bool)
        ensures
            r == (t < self@.in_use.len() && self@.in_use[t as int]),
    {
        t < self.in_use.len() && self.in_use[t]
    }

    /// The token for a new connection: the one returned last, or else the
    /// next one never used.
    pub fn take(&mut self) -> (t: usize)
        requires
            old(self)@.wf(),
            old(self)@.in_use.len() < usize::MAX,
        ensures
            final(self)@.wf(),
            t >= 1,
            old(self)@.returned.len() > 0 ==> {
                &&& t == old(self)@.returned.last()
                &&& final(self)@.returned == old(self)@.returned.drop_last()
                &&& final(self)@.in_use == old(self)@.in_use.update(t as int, true)
            },
            old(self)@.returned.len() == 0 ==> {
                &&& t == old(self)@.in_use.len()
                &&& final(self)@.returned == old(self)@.returned
                &&& final(self)@.in_use == old(self)@.in_use.push(true)
            },
    {
        let ghost before = self@;
        match self.returned.pop() {
            Some(t) => {
                proof {
                    assert(before.returned[before.returned.len() - 1] == t);
                }
                self.in_use.set(t, true);
                proof {
                    let after = self@;
                    assert forall|i: int| 0 <= i < after.returned.len() implies {
                        let u = #[trigger] after.returned[i];
                        &&& 1 <= u < after.in_use.len()
                        &&& !after.in_use[u as int]
                    } by {
                        assert(after.returned[i] == before.returned[i]);
                        assert(before.returned[i] != before.returned[before.returned.len() - 1]);
                    }
                    assert forall|u: int| 1 <= u < after.in_use.len() && !#[trigger] after.in_use[u]
                        implies after.returned.contains(u as usize) by {
                        assert(before.returned.contains(u as usize));
                        let k = choose|k: int| 0 <= k < before.returned.len() && before.returned[k] == u as usize;
                        if k == before.returned.len() - 1 {
                            assert(false);
                        } else {
                            assert(after.returned[k] == u as usize);
                        }
                    }
                }
                t
            },
            None => {
                let t = self.in_use.len();
                self.in_use.push(true);
                proof {
                    let after = self@;
                    assert forall|u: int| 1 <= u < after.in_use.len() && !#[trigger] after.in_use[u]
                        implies after.returned.contains(u as usize) by {
                        assert(before.in_use[u] == after.in_use[u]);
                    }
                }
                t
            },
        }
    }

    /// Returns the token of a closed connection.
    pub fn release(&mut self, t: usize)
        requires
            old(self)@.wf(),
            1 <= t < old(self)@.in_use.len(),
            old(self)@.in_use[t as int],
        ensures
            final(self)@.wf(),
            final(self)@.in_use == old(self)@.in_use.update(t as int, false),
            final(self)@.returned == old(self)@.returned.push(t),
    {
        let ghost before = self@;
        self.in_use.set(t, false);
        self.returned.push(t);
        proof {
            let after = self@;
            assert forall|i: int, j: int| 0 <= i < j < after.returned.len() implies after.returned[i] != after.returned[j] by {
                if j == after.returned.len() - 1 {
                    assert(!before.in_use[before.returned[i] as int]);
                }
            }
            assert forall|i: int| 0 <= i < after.returned.len() implies {
                let u = #[trigger] after.returned[i];
                &&& 1 <= u < after.in_use.len()
                &&& !after.in_use[u as int]
            } by {
                if i < before.returned.len() {
                    assert(after.returned[i] == before.returned[i]);
                }
            }
            assert forall|u: int| 1 <= u < after.in_use.len() && !#[trigger] after.in_use[u]
                implies after.returned.contains(u as usize) by {
                if u == t as int {
                    assert(after.returned[after.returned.len() - 1] == t);
                } else {
                    assert(before.returned.contains(u as usize));
                    let k = choose|k: int| 0 <= k < before.returned.len() && before.returned[k] == u as usize;
                    assert(after.returned[k] == u as usize);
                }
            }
        }
    }
}

} // verus!
