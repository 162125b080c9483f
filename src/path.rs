use vstd::prelude::*;
use vstd::string::{StrSliceExecFns, StringExecFns};

verus! {

/// One step from a container to a part of it: a key of a mapping or a
/// position in a sequence.
#[derive(Debug)]
pub enum PathComponent {
    Key(String),
    Index(usize),
}

/// The decimal digit `d`, for `0 <= d < 10`.
pub open spec fn digit_char(d: int) -> char {
    seq!['0', '1', '2', '3', '4', '5', '6', '7', '8', '9'][d]
}

/// The decimal numeral of `n`, without leading zeros.
pub open spec fn decimal(n: nat) -> Seq<char>
    decreases n,
{
    if n < 10 {
        seq![digit_char(n as int)]
    } else {
        decimal(n / 10).push(digit_char((n % 10) as int))
    }
}

/// `['key']` for a key, `[index]` for a position.
pub open spec fn component_text(c: PathComponent) -> Seq<char> {
    match c {
        PathComponent::Key(k) => seq!['[', '\''] + k@ + seq!['\'', ']'],
        PathComponent::Index(i) => seq!['['] + decimal(i as nat) + seq![']'],
    }
}

/// The canonical text of a path: `root`, then the text of each component
/// in order.
pub open spec fn render(path: Seq<PathComponent>) -> Seq<char>
    decreases path.len(),
{
    if path.len() == 0 {
        seq!['r', 'o', 'o', 't']
    } else {
        render(path.drop_last()) + component_text(path.last())
    }
}

impl PathComponent {
    /// A copy of this component.
    pub fn duplicate(&self) -> (r: PathComponent)
        ensures
            r == *self,
    {
        match self {
            PathComponent::Key(k) => PathComponent::Key(k.clone()),
            PathComponent::Index(i) => PathComponent::Index(*i),
        }
    }
}

/// A copy of `path`, component for component.
pub fn copy_path(path: &Vec<PathComponent>) -> (r: Vec<PathComponent>)
    ensures
        r@ == path@,
{
    let mut r: Vec<PathComponent> = Vec::new();
    let mut i: usize = 0;
    while i < path.len()
        invariant
            0 <= i <= path.len(),
            r@ == path@.subrange(0, i as int),
        decreases path.len() - i,
    {
        r.push(path[i].duplicate());
        i = i + 1;
    }
    assert(r@ =~= path@);
    r
}

/// `path` with `step` appended; `path` itself is left as it is.
pub fn extend_path(path: &Vec<PathComponent>, step: PathComponent) -> (r: Vec<PathComponent>)
    ensures
        r@ == path@.push(step),
{
    let mut r = copy_path(path);
    r.push(step);
    r
}

fn append_digit(s: &mut String, d: usize)
    requires
        d < 10,
    ensures
        final(s)@ == old(s)@.push(digit_char(d as int)),
{
    let digits: &str = "0123456789";
    proof {
        reveal_strlit("0123456789");
    }
    let one = digits.substring_char(d, d + 1);
    assert(one@ =~= seq![digit_char(d as int)]);
    s.append(one);
}

fn append_decimal(s: &mut String, n: usize)
    ensures
        final(s)@ == old(s)@ + decimal(n as nat),
    decreases n,
{
    if n < 10 {
        append_digit(s, n);
        assert(final(s)@ =~= old(s)@ + decimal(n as nat));
    } else {
        append_decimal(s, n / 10);
        append_digit(s, n % 10);
        assert(final(s)@ =~= old(s)@ + decimal(n as nat));
    }
}

/// The canonical text of `path`, as `render` gives it.
pub fn format_path(path: &[PathComponent]) -> (r: String)
    ensures
        r@ == render(path@),
{
    proof {
        reveal_strlit("root");
    }
    let mut result = String::from_str("root");
    assert("root"@ =~= seq!['r', 'o', 'o', 't']);
    let mut i: usize = 0;
    assert(path@.subrange(0, 0) =~= Seq::<PathComponent>::empty());
    while i < path.len()
        invariant
            0 <= i <= path@.len(),
            result@ == render(path@.subrange(0, i as int)),
        decreases path.len() - i,
    {
        let ghost before = result@;
        match &path[i] {
            PathComponent::Key(key) => {
                result.append("['");
                result.append(key.as_str());
                result.append("']");
                proof {
                    reveal_strlit("['");
                    reveal_strlit("']");
                    assert("['"@ =~= seq!['[', '\'']);
                    assert("']"@ =~= seq!['\'', ']']);
                }
                assert(result@ =~= before + component_text(path@[i as int]));
            },
            PathComponent::Index(idx) => {
                result.append("[");
                append_decimal(&mut result, *idx);
                result.append("]");
                proof {
                    reveal_strlit("[");
                    reveal_strlit("]");
                    assert("["@ =~= seq!['[']);
                    assert("]"@ =~= seq![']']);
                }
                assert(result@ =~= before + component_text(path@[i as int]));
            },
        }
        let ghost prefix = path@.subrange(0, i + 1);
        assert(prefix.drop_last() =~= path@.subrange(0, i as int));
        i = i + 1;
    }
    assert(path@.subrange(0, path@.len() as int) =~= path@);
    result
}

} // verus!
