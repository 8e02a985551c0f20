//! The transport-agent contract and the host's bookkeeping around it: the
//! agent operations, the receive-transaction discipline, and the
//! NUL-terminated argument block that crosses the loadable-module boundary.

use vstd::prelude::*;

verus! {

/// A human-readable agent failure, as the loadable-module boundary reports
/// it.
#[derive(Clone, Debug)]
pub struct AgentError {
    pub message: Vec<u8>,
}

/// A misuse of the host's transaction protocol.
#[derive(Clone, Copy, Debug, PartialEq, Eq, Structural)]
pub enum HostBug {
    ArgsNotUtf8,
    NotInTxn,
    AlreadyInTxn,
    ReadRange,
    CommitRange,
}

/// A transport agent: a pluggable state machine with an outbound channel and
/// a transactional receive discipline. Implementations live outside the
/// verified core; the host holds them to this shape.
pub trait Agent {
    /// Configures a fresh agent from its argument strings.
    fn init(&mut self, args: &Vec<Vec<u8>>) -> Result<(), AgentError>;

    /// Queues one outbound message. No delivery or ordering promise is made.
    fn send(&mut self, data: &Vec<u8>) -> Result<(), AgentError>;

    /// Opens a receive transaction and returns the number of messages
    /// visible inside it.
    fn recv_begin(&mut self) -> Result<usize, AgentError>;

    /// Appends the bytes of the indexed message to `into`.
    fn recv_read(&mut self, index: usize, into: &mut Vec<u8>) -> Result<(), AgentError>;

    /// Closes the transaction, durably consuming the first `count` messages.
    fn recv_commit(&mut self, count: usize) -> Result<(), AgentError>;

    /// Closes the transaction without consuming anything; a no-op outside a
    /// transaction.
    fn recv_abort(&mut self) -> Result<(), AgentError>;

    /// Surfaces asynchronous errors and drives cooperative progress.
    fn poll(&mut self) -> Result<(), AgentError>;
}

/// The host's receive-transaction bookkeeping for one agent instance: at
/// most one transaction is open at a time, and every read or commit is held
/// to the open transaction's message count.
#[derive(Clone, Copy, Debug, PartialEq, Eq, Structural)]
pub struct RecvState {
    pub open_count: Option<usize>,
}

impl RecvState {
    /// No transaction is open.
    pub fn new() -> (r: RecvState)
        ensures
            r.open_count is None,
    {
        RecvState { open_count: None }
    }

    /// Records a transaction of `count` messages. Fails exactly when one is
    /// already in progress, leaving the state unchanged.
    pub fn begin(&mut self, count: usize) -> (r: Result<(), HostBug>)
        ensures
            match r {
                Ok(_) => old(self).open_count is None && final(self).open_count == Some(count),
                Err(b) => b == HostBug::AlreadyInTxn && old(self).open_count is Some
                    && final(self).open_count == old(self).open_count,
            },
    {
        if self.open_count.is_some() {
            return Err(HostBug::AlreadyInTxn);
        }
        self.open_count = Some(count);
        Ok(())
    }

    /// Checks that `index` addresses a message of the open transaction.
    /// Fails exactly outside a transaction or past its count; never changes
    /// the state.
    pub fn check_read(&self, index: usize) -> (r: Result<(), HostBug>)
        ensures
            match r {
                Ok(_) => self.open_count matches Some(c) && index < c,
                Err(b) => match self.open_count {
                    Some(c) => index >= c && b == HostBug::ReadRange,
                    None => b == HostBug::NotInTxn,
                },
            },
    {
        match self.open_count {
            Some(c) => if index < c {
                Ok(())
            } else {
                Err(HostBug::ReadRange)
            },
            None => Err(HostBug::NotInTxn),
        }
    }

    /// Closes the open transaction, accepting a consume count of at most its
    /// message count. Fails exactly outside a transaction or past the count;
    /// on success no transaction remains open.
    pub fn commit(&mut self, num: usize) -> (r: Result<(), HostBug>)
        ensures
            match r {
                Ok(_) => old(self).open_count matches Some(c) && num <= c && final(self).open_count is None,
                Err(b) => final(self).open_count == old(self).open_count && match old(self).open_count {
                    Some(c) => num > c && b == HostBug::CommitRange,
                    None => b == HostBug::NotInTxn,
                },
            },
    {
        match self.open_count {
            Some(c) => {
                if num > c {
                    return Err(HostBug::CommitRange);
                }
                self.open_count = None;
                Ok(())
            },
            None => Err(HostBug::NotInTxn),
        }
    }

    /// Closes any open transaction without consuming anything; a no-op
    /// outside a transaction, never an error.
    pub fn abort(&mut self)
        ensures
            final(self).open_count is None,
    {
        self.open_count = None;
    }
}

/// Whether a set of argument strings can cross the loadable-module boundary:
/// each must be non-empty and free of NUL bytes.
pub open spec fn args_ok(args: Seq<Seq<u8>>) -> bool {
    forall|i: int|
        0 <= i < args.len() ==> (#[trigger] args[i]).len() > 0 && forall|j: int|
            0 <= j < args[i].len() ==> args[i][j] != 0u8
}

/// The encoded argument block: each argument NUL-terminated, the sequence
/// closed by an empty string, as environment blocks are laid out.
pub open spec fn args_block(args: Seq<Seq<u8>>) -> Seq<u8>
    decreases args.len(),
{
    if args.len() == 0 {
        seq![0u8]
    } else {
        args[0] + seq![0u8] + args_block(args.drop_first())
    }
}

/// Encodes argument strings into one NUL-terminated block. Fails exactly
/// when some argument is empty or holds a NUL byte.
pub fn external_args(args: &Vec<Vec<u8>>) -> (r: Result<Vec<u8>, HostBug>)
    ensures
        match r {
            Ok(block) => args_ok(args.deep_view()) && block@ == args_block(args.deep_view()),
            Err(_) => !args_ok(args.deep_view()),
        },
{
    let ghost m = args.deep_view();
    let count = args.len();
    let mut block: Vec<u8> = Vec::new();
    let mut i: usize = 0;
    proof {
        assert(m.skip(0) =~~= m);
        assert(block@ + args_block(m) =~= args_block(m));
    }
    while i < count
        invariant
            i <= count,
            count == args@.len(),
            m == args.deep_view(),
            forall|k: int|
                0 <= k < i ==> (#[trigger] m[k]).len() > 0 && forall|j: int|
                    0 <= j < m[k].len() ==> m[k][j] != 0u8,
            block@ + args_block(m.skip(i as int)) == args_block(m),
        decreases count - i,
    {
        let arg = &args[i];
        if arg.len() == 0 {
            proof {
                assert(!args_ok(m));
            }
            return Err(HostBug::ArgsNotUtf8);
        }
        let n = arg.len();
        let mut j: usize = 0;
        while j < n
            invariant
                j <= n,
                i < count,
                count == args@.len(),
                m == args.deep_view(),
                n == args@[i as int]@.len(),
                arg == args@[i as int],
                forall|k: int| 0 <= k < j ==> m[i as int][k] != 0u8,
            decreases n - j,
        {
            if arg[j] == 0 {
                proof {
                    assert(m[i as int][j as int] == 0u8);
                    assert(!args_ok(m));
                }
                return Err(HostBug::ArgsNotUtf8);
            }
            j = j + 1;
        }
        let ghost pre = block@;
        let mut k: usize = 0;
        while k < n
            invariant
                k <= n,
                i < count,
                count == args@.len(),
                n == args@[i as int]@.len(),
                arg == args@[i as int],
                m == args.deep_view(),
                block@ == pre + args@[i as int]@.take(k as int),
            decreases n - k,
        {
            block.push(arg[k]);
            k = k + 1;
            proof {
                let s = args@[i as int]@;
                assert(s.take(k as int) =~= s.take(k - 1).push(s[k - 1]));
            }
        }
        block.push(0u8);
        i = i + 1;
        proof {
            let s = m.skip(i - 1);
            assert(s[0] =~= m[i - 1]);
            assert(s.drop_first() =~~= m.skip(i as int));
            assert(args_block(s) == s[0] + seq![0u8] + args_block(s.drop_first()));
            assert(args@[i - 1]@.take(n as int) =~= m[i - 1]);
            assert(block@ =~= pre + (m[i - 1] + seq![0u8]));
            assert(pre + (m[i - 1] + seq![0u8]) + args_block(m.skip(i as int)) =~= pre + (m[i - 1]
                + seq![0u8] + args_block(m.skip(i as int))));
        }
    }
    block.push(0u8);
    proof {
        assert(m.skip(count as int) =~~= Seq::<Seq<u8>>::empty());
        assert(args_block(m.skip(count as int)) =~= seq![0u8]);
        assert(block@ =~= args_block(m));
        assert(args_ok(m));
    }
    Ok(block)
}

/// The position of the first NUL byte, if any.
pub open spec fn find_zero(s: Seq<u8>) -> Option<int>
    decreases s.len(),
{
    if s.len() == 0 {
        None
    } else if s[0] == 0u8 {
        Some(0)
    } else {
        match find_zero(s.drop_first()) {
            Some(i) => Some(i + 1),
            None => None,
        }
    }
}

/// Decodes an argument block: strings split at NUL bytes, ending at the
/// empty string. `None` when no empty string terminates the block.
pub open spec fn parse_block(block: Seq<u8>) -> Option<Seq<Seq<u8>>>
    decreases block.len(),
{
    match find_zero(block) {
        Some(i) => if i == 0 {
            Some(Seq::empty())
        } else if 1 <= i && i + 1 <= block.len() {
            match parse_block(block.skip(i + 1)) {
                Some(rest) => Some(seq![block.take(i)] + rest),
                None => None,
            }
        } else {
            None
        },
        None => None,
    }
}

proof fn lemma_find_zero_in(s: Seq<u8>)
    ensures
        find_zero(s) matches Some(i) ==> 0 <= i < s.len() && s[i] == 0u8 && forall|j: int|
            0 <= j < i ==> s[j] != 0u8,
        find_zero(s) is None ==> forall|j: int| 0 <= j < s.len() ==> s[j] != 0u8,
    decreases s.len(),
{
    if s.len() > 0 && s[0] != 0u8 {
        lemma_find_zero_in(s.drop_first());
        match find_zero(s.drop_first()) {
            Some(i) => {
                assert(s[i + 1] == s.drop_first()[i]);
                assert forall|j: int| 0 <= j < i + 1 implies s[j] != 0u8 by {
                    if j > 0 {
                        assert(s[j] == s.drop_first()[j - 1]);
                    }
                }
            },
            None => {
                assert forall|j: int| 0 <= j < s.len() implies s[j] != 0u8 by {
                    if j > 0 {
                        assert(s[j] == s.drop_first()[j - 1]);
                    }
                }
            },
        }
    }
}

proof fn lemma_find_zero_of(prefix: Seq<u8>, rest: Seq<u8>)
    requires
        forall|j: int| 0 <= j < prefix.len() ==> prefix[j] != 0u8,
    ensures
        find_zero(prefix + seq![0u8] + rest) == Some(prefix.len() as int),
    decreases prefix.len(),
{
    let whole = prefix + seq![0u8] + rest;
    if prefix.len() == 0 {
        assert(whole[0] == 0u8);
    } else {
        lemma_find_zero_of(prefix.drop_first(), rest);
        assert(whole[0] == prefix[0]);
        assert(whole.drop_first() =~= prefix.drop_first() + seq![0u8] + rest);
    }
}

/// The two sides of the loadable-module boundary agree: decoding an encoded
/// argument block gives back exactly the arguments that were encoded.
pub proof fn lemma_args_round_trip(args: Seq<Seq<u8>>)
    requires
        args_ok(args),
    ensures
        parse_block(args_block(args)) == Some(args),
    decreases args.len(),
{
    if args.len() == 0 {
        assert(args_block(args)[0] == 0u8);
        assert(Seq::<Seq<u8>>::empty() =~~= args);
    } else {
        let whole = args_block(args);
        let head = args[0];
        let rest = args_block(args.drop_first());
        lemma_find_zero_of(head, rest);
        assert(whole =~= head + seq![0u8] + rest);
        assert(whole.take(head.len() as int) =~= head);
        assert(whole.skip(head.len() as int + 1) =~= rest);
        assert(args_ok(args.drop_first()));
        lemma_args_round_trip(args.drop_first());
        assert(seq![whole.take(head.len() as int)] + args.drop_first() =~~= args);
    }
}

/// Decodes a NUL-terminated argument block into its argument strings. Fails
/// exactly when no empty string terminates the block.
pub fn parse_args(block: &Vec<u8>) -> (r: Result<Vec<Vec<u8>>, HostBug>)
    ensures
        match r {
            Ok(args) => parse_block(block@) == Some(args.deep_view()),
            Err(_) => parse_block(block@) is None,
        },
{
    let mut args: Vec<Vec<u8>> = Vec::new();
    let mut pos: usize = 0;
    let n = block.len();
    proof {
        assert(block@.skip(0) =~= block@);
        assert(args.deep_view() =~~= Seq::<Seq<u8>>::empty());
    }
    loop
        invariant
            pos <= n,
            n == block@.len(),
            match parse_block(block@.skip(pos as int)) {
                Some(rest) => parse_block(block@) == Some(args.deep_view() + rest),
                None => parse_block(block@) is None,
            },
        decreases n - pos,
    {
        let ghost tail = block@.skip(pos as int);
        let mut scan: usize = pos;
        while scan < n && block[scan] != 0
            invariant
                pos <= scan <= n,
                n == block@.len(),
                forall|j: int| pos <= j < scan ==> block@[j] != 0u8,
            decreases n - scan,
        {
            scan = scan + 1;
        }
        if scan == n {
            proof {
                lemma_find_zero_in(tail);
                if let Some(i) = find_zero(tail) {
                    assert(tail[i] == block@[pos + i]);
                    assert(false);
                }
            }
            return Err(HostBug::ArgsNotUtf8);
        }
        proof {
            let prefix = block@.subrange(pos as int, scan as int);
            let after = block@.skip(scan as int + 1);
            assert(tail =~= prefix + seq![0u8] + after);
            lemma_find_zero_of(prefix, after);
        }
        if scan == pos {
            proof {
                assert(parse_block(tail) == Some(Seq::<Seq<u8>>::empty()));
                assert(args.deep_view() + Seq::<Seq<u8>>::empty() =~~= args.deep_view());
            }
            return Ok(args);
        }
        let mut arg: Vec<u8> = Vec::new();
        let mut k: usize = pos;
        while k < scan
            invariant
                pos <= k <= scan <= n,
                n == block@.len(),
                arg@ == block@.subrange(pos as int, k as int),
            decreases scan - k,
        {
            arg.push(block[k]);
            k = k + 1;
            proof {
                assert(block@.subrange(pos as int, k as int) =~= block@.subrange(
                    pos as int,
                    k - 1,
                ).push(block@[k - 1]));
            }
        }
        let ghost acc0 = args.deep_view();
        args.push(arg);
        proof {
            let prefix = block@.subrange(pos as int, scan as int);
            assert(args.deep_view() =~~= acc0.push(prefix));
            assert(tail.take(scan - pos) =~= prefix);
            assert(tail.skip(scan - pos + 1) =~= block@.skip(scan as int + 1));
            assert(parse_block(tail) == match parse_block(block@.skip(scan as int + 1)) {
                Some(rest) => Some(seq![prefix] + rest),
                None => None,
            });
            if let Some(rest) = parse_block(block@.skip(scan as int + 1)) {
                assert(acc0 + (seq![prefix] + rest) =~~= args.deep_view() + rest);
            }
        }
        pos = scan + 1;
    }
}

} // verus!
