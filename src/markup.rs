//! Text escaped for XML markup, as course map labels are drawn.
use vstd::prelude::*;
use vstd::string::*;

verus! {

/// The markup for one character: the five XML specials as entities, any
/// other character as itself.
pub open spec fn escape_char(c: char) -> Seq<char> {
    if c == '&' {
        seq!['&', 'a', 'm', 'p', ';']
    } else if c == '<' {
        seq!['&', 'l', 't', ';']
    } else if c == '>' {
        seq!['&', 'g', 't', ';']
    } else if c == '"' {
        seq!['&', 'q', 'u', 'o', 't', ';']
    } else if c == '\'' {
        seq!['&', 'a', 'p', 'o', 's', ';']
    } else {
        seq![c]
    }
}

pub open spec fn escape_spec(s: Seq<char>) -> Seq<char>
    decreases s.len(),
{
    if s.len() == 0 {
        Seq::empty()
    } else {
        escape_spec(s.drop_last()) + escape_char(s.last())
    }
}

/// `x` with each XML special character replaced by its entity.
pub fn escape_string(x: &str) -> (r: String)
    ensures
        r@ == escape_spec(x@),
{
    let n = x.unicode_len();
    let mut res = String::new();
    let mut i: usize = 0;
    while i < n
        invariant
            n == x@.len(),
            i <= n,
            res@ == escape_spec(x@.take(i as int)),
        decreases n - i,
    {
        assert(x@.take(i as int + 1).drop_last() =~= x@.take(i as int));
        let c = x.get_char(i);
        proof {
            reveal_strlit("&amp;");
            reveal_strlit("&lt;");
            reveal_strlit("&gt;");
            reveal_strlit("&quot;");
            reveal_strlit("&apos;");
        }
        if c == '&' {
            res.append("&amp;");
        } else if c == '<' {
            res.append("&lt;");
        } else if c == '>' {
            res.append("&gt;");
        } else if c == '"' {
            res.append("&quot;");
        } else if c == '\'' {
            res.append("&apos;");
        } else {
            let one = x.substring_char(i, i + 1);
            assert(one@ =~= seq![c]);
            res.append(one);
        }
        assert(res@ =~= escape_spec(x@.take(i as int + 1)));
        i = i + 1;
    }
    assert(x@.take(n as int) =~= x@);
    res
}

} // verus!
