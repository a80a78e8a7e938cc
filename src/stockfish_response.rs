use vstd::prelude::*;
use vstd::string::{StrSliceExecFns, StringSliceAdditionalSpecFns};
use crate::moves::{UciMove, UciMoveCreationResult};
use crate::perft::PerftNode;

verus! {

/// The first index from `i` on that holds a line feed, or the length.
pub open spec fn next_line_feed(s: Seq<char>, i: int) -> int
    decreases s.len() - i,
{
    if i >= s.len() {
        s.len() as int
    } else if s[i] == '\n' {
        i
    } else {
        next_line_feed(s, i + 1)
    }
}

/// A line without its final carriage return, if it has one.
pub open spec fn strip_carriage_return(l: Seq<char>) -> Seq<char> {
    if l.len() > 0 && l.last() == '\r' {
        l.drop_last()
    } else {
        l
    }
}

/// The lines of `s` from index `i` on: split at line feeds, each without a
/// final carriage return, and no empty line after a final line feed.
pub open spec fn lines_from(s: Seq<char>, i: int) -> Seq<Seq<char>>
    decreases s.len() - i + 1,
{
    if i < 0 || i >= s.len() {
        seq![]
    } else {
        let e = next_line_feed(s, i);
        if e < i || e > s.len() {
            seq![]
        } else {
            seq![strip_carriage_return(s.subrange(i, e))] + lines_from(s, e + 1)
        }
    }
}

proof fn lemma_next_line_feed(s: Seq<char>, i: int)
    requires
        0 <= i <= s.len(),
    ensures
        i <= next_line_feed(s, i) <= s.len(),
        next_line_feed(s, i) < s.len() ==> s[next_line_feed(s, i)] == '\n',
    decreases s.len() - i,
{
    if i < s.len() && s[i] != '\n' {
        lemma_next_line_feed(s, i + 1);
    }
}

/// A line of engine output that carries information rather than a result.
pub open spec fn is_info_line(l: Seq<char>) -> bool {
    l.len() >= 11 && l.subrange(0, 11) == seq!['i', 'n', 'f', 'o', ' ', 's', 't', 'r', 'i', 'n', 'g']
}

/// The information lines among `ls`, in order.
pub open spec fn info_lines_of(ls: Seq<Seq<char>>) -> Seq<Seq<char>>
    decreases ls.len(),
{
    if ls.len() == 0 {
        seq![]
    } else {
        let rest = info_lines_of(ls.drop_last());
        if is_info_line(ls.last()) {
            rest.push(ls.last())
        } else {
            rest
        }
    }
}

/// The text an engine answered to a command.
pub struct StockfishResponse {
    response: String,
}

impl View for StockfishResponse {
    type V = Seq<char>;

    closed spec fn view(&self) -> Seq<char> {
        self.response@
    }
}

impl StockfishResponse {
    pub fn new(response: String) -> (r: StockfishResponse)
        ensures
            r@ == response@,
    {
        StockfishResponse { response }
    }

    pub fn get_raw_response(&self) -> (r: &str)
        ensures
            r@ == self@,
    {
        self.response.as_str()
    }

    /// Returns the lines of the response.
    pub fn get_lines(&self) -> (r: Vec<String>)
        ensures
            r@.len() == lines_from(self@, 0).len(),
            forall|i: int| 0 <= i < r@.len() ==> #[trigger] r@[i]@ == lines_from(self@, 0)[i],
    {
        let text = self.response.as_str();
        let ghost s = text@;
        let n = text.unicode_len();
        let mut lines: Vec<String> = Vec::new();
        let mut start: usize = 0;
        while start < n
            invariant
                s == text@,
                s == self@,
                n == s.len(),
                start <= n,
                lines@.len() + lines_from(s, start as int).len() == lines_from(s, 0).len(),
                forall|i: int| 0 <= i < lines@.len() ==> #[trigger] lines@[i]@ == lines_from(s, 0)[i],
                forall|i: int|
                    0 <= i < lines_from(s, start as int).len() ==> #[trigger] lines_from(s, start as int)[i]
                        == lines_from(s, 0)[lines@.len() + i],
            decreases n - start,
        {
            let mut e = start;
            proof {
                lemma_next_line_feed(s, start as int);
            }
            while e < n && text.get_char(e) != '\n'
                invariant
                    s == text@,
                    n == s.len(),
                    start <= e <= n,
                    next_line_feed(s, start as int) == next_line_feed(s, e as int),
                decreases n - e,
            {
                e += 1;
            }
            let mut end = e;
            if end > start && text.get_char(end - 1) == '\r' {
                end = end - 1;
            }
            let line = text.substring_char(start, end).to_owned();
            proof {
                assert(line@ == strip_carriage_return(s.subrange(start as int, e as int))) by {
                    if e > start && s[e - 1] == '\r' {
                        assert(s.subrange(start as int, e as int).drop_last() =~= s.subrange(
                            start as int,
                            end as int,
                        ));
                    } else {
                        assert(end == e);
                    }
                }
                let rest = lines_from(s, e + 1);
                assert(lines_from(s, start as int) == seq![line@] + rest);
                assert forall|i: int| 0 <= i < rest.len() implies #[trigger] rest[i] == lines_from(s, 0)[lines@.len() + 1 + i] by {
                    assert(lines_from(s, start as int)[i + 1] == rest[i]);
                }
                assert(lines_from(s, start as int)[0] == line@);
            }
            lines.push(line);
            if e < n {
                start = e + 1;
            } else {
                start = n;
                proof {
                    assert(lines_from(s, e + 1) =~= seq![]);
                    assert(lines_from(s, n as int) =~= seq![]);
                }
            }
        }
        lines
    }
}


/// The value of a string of decimal digits.
pub open spec fn digits_value(d: Seq<char>) -> nat
    decreases d.len(),
{
    if d.len() == 0 {
        0
    } else {
        (digits_value(d.drop_last()) * 10 + (d.last() as nat - '0' as nat)) as nat
    }
}

/// `t` is a decimal number, with an optional leading `+`, whose value is `v`.
pub open spec fn parses_as_u64(t: Seq<char>, v: u64) -> bool {
    let d = if t.len() > 0 && t[0] == '+' { t.subrange(1, t.len() as int) } else { t };
    &&& d.len() > 0
    &&& forall|i: int| 0 <= i < d.len() ==> '0' <= #[trigger] d[i] <= '9'
    &&& digits_value(d) == v
}

/// Reads an unsigned decimal number; `None` for any other text or a value
/// beyond `u64::MAX`.
pub fn parse_u64(text: &str) -> (r: Option<u64>)
    ensures
        r matches Some(v) ==> parses_as_u64(text@, v),
{
    let n = text.unicode_len();
    let mut i: usize = 0;
    if n > 0 && text.get_char(0) == '+' {
        i = 1;
    }
    let first = i;
    if first >= n {
        return None;
    }
    let ghost t = text@;
    let ghost d = if first == 1 { t.subrange(1, t.len() as int) } else { t };
    let mut value: u64 = 0;
    while i < n
        invariant
            t == text@,
            n == t.len(),
            first == 0 || first == 1,
            first < n,
            first <= i <= n,
            first == 1 <==> (t.len() > 0 && t[0] == '+'),
            d == if t.len() > 0 && t[0] == '+' { t.subrange(1, t.len() as int) } else { t },
            forall|k: int| 0 <= k < i - first ==> '0' <= #[trigger] d[k] <= '9',
            value == digits_value(d.subrange(0, i - first)),
        decreases n - i,
    {
        let c = text.get_char(i);
        if c < '0' || c > '9' {
            return None;
        }
        let digit = (c as u32 - '0' as u32) as u64;
        let next = match value.checked_mul(10) {
            Some(x) => match x.checked_add(digit) {
                Some(y) => y,
                None => {
                    return None;
                },
            },
            None => {
                return None;
            },
        };
        proof {
            let pre = d.subrange(0, i - first);
            let now = d.subrange(0, i - first + 1);
            assert(now.drop_last() =~= pre);
            assert(now.last() == c);
        }
        value = next;
        i += 1;
    }
    assert(d.subrange(0, n - first) =~= d);
    Some(value)
}

/// The per-move node counts and the information lines of an engine's answer
/// to a perft command.
pub struct StockfishPerftResponse {
    pub nodes: Vec<PerftNode>,
    pub info_lines: Vec<String>,
}

impl StockfishPerftResponse {
    /// Reads an answer: each `info string` line is kept as it is, and each
    /// line of the form `<move>: <count>` gives a node.
    pub fn from_response(response: StockfishResponse) -> (r: StockfishPerftResponse)
        ensures
            r.info_lines@.len() == info_lines_of(lines_from(response@, 0)).len(),
            forall|i: int|
                0 <= i < r.info_lines@.len() ==> #[trigger] r.info_lines@[i]@ == info_lines_of(
                    lines_from(response@, 0),
                )[i],
            r.nodes@.len() + r.info_lines@.len() <= lines_from(response@, 0).len(),
    {
        let lines = response.get_lines();
        let ghost ls = lines_from(response@, 0);
        let mut nodes: Vec<PerftNode> = Vec::new();
        let mut info_lines: Vec<String> = Vec::new();
        let mut k: usize = 0;
        while k < lines.len()
            invariant
                lines@.len() == ls.len(),
                forall|i: int| 0 <= i < lines@.len() ==> #[trigger] lines@[i]@ == ls[i],
                k <= lines@.len(),
                info_lines@.len() == info_lines_of(ls.subrange(0, k as int)).len(),
                forall|i: int|
                    0 <= i < info_lines@.len() ==> #[trigger] info_lines@[i]@ == info_lines_of(
                        ls.subrange(0, k as int),
                    )[i],
                nodes@.len() + info_lines@.len() <= k,
            decreases lines@.len() - k,
        {
            let line = lines[k].as_str();
            let ghost l = line@;
            let n = line.unicode_len();
            proof {
                assert(ls.subrange(0, k + 1).drop_last() =~= ls.subrange(0, k as int));
                assert(ls.subrange(0, k + 1).last() == l);
            }
            let mut info = n >= 11;
            let prefix = ['i', 'n', 'f', 'o', ' ', 's', 't', 'r', 'i', 'n', 'g'];
            let mut j: usize = 0;
            while info && j < 11
                invariant
                    l == line@,
                    n == l.len(),
                    j <= 11,
                    prefix@ == seq!['i', 'n', 'f', 'o', ' ', 's', 't', 'r', 'i', 'n', 'g'],
                    info ==> n >= 11 && forall|q: int| 0 <= q < j ==> l[q] == #[trigger] prefix@[q],
                    !info ==> !is_info_line(l),
                decreases 11 - j,
            {
                if line.get_char(j) != prefix[j] {
                    info = false;
                }
                j += 1;
            }
            proof {
                if info {
                    assert(l.subrange(0, 11) =~= prefix@);
                }
            }
            if info {
                info_lines.push(lines[k].clone());
            } else {
                let mut separators: usize = 0;
                let mut at: usize = 0;
                let mut p: usize = 0;
                while p < n && p + 1 < n
                    invariant
                        n == line@.len(),
                        p <= n,
                        separators <= p,
                        at <= p,
                    decreases n - p,
                {
                    if line.get_char(p) == ':' && line.get_char(p + 1) == ' ' {
                        separators += 1;
                        at = p;
                    }
                    p += 1;
                }
                if separators == 1 && at < n && n - at >= 2 {
                    let move_text = line.substring_char(0, at);
                    let count_text = line.substring_char(at + 2, n);
                    if let UciMoveCreationResult::Success(mov) = UciMove::from_uci(move_text) {
                        if let Some(count) = parse_u64(count_text) {
                            nodes.push(PerftNode::new(mov, #[verifier::truncate] (count as usize)));
                        }
                    }
                }
            }
            k += 1;
        }
        proof {
            assert(ls.subrange(0, lines@.len() as int) =~= ls);
        }
        StockfishPerftResponse { nodes, info_lines }
    }

    /// Returns the number of nodes, one per root move.
    pub fn get_node_count(&self) -> (r: usize)
        ensures
            r == self.nodes@.len(),
    {
        self.nodes.len()
    }

    /// Returns the node of each root move.
    pub fn get_nodes(&self) -> (r: &Vec<PerftNode>)
        ensures
            r@ == self.nodes@,
    {
        &self.nodes
    }

    /// Returns the information lines.
    pub fn get_info_lines(&self) -> (r: &Vec<String>)
        ensures
            r@ == self.info_lines@,
    {
        &self.info_lines
    }
}

} // verus!
