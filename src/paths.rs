use vstd::prelude::*;

verus! {

/// The highest index that a backup name may carry.
pub const MAX_BACKUP_INDEX: u32 = 99;

const DIGITS: &'static str = "0123456789";

/// The character of a decimal digit.
pub open spec fn digit_char(d: int) -> char {
    seq!['0', '1', '2', '3', '4', '5', '6', '7', '8', '9'][d]
}

/// The decimal notation of `n`, without leading zeros.
pub open spec fn decimal(n: nat) -> Seq<char>
    decreases n,
{
    if n < 10 {
        seq![digit_char(n as int)]
    } else {
        decimal(n / 10).push(digit_char((n % 10) as int))
    }
}

/// `path` without the separators that end it, so that it ends with its final
/// component; a path made only of separators keeps one.
pub open spec fn without_trailing_separators(path: Seq<char>) -> Seq<char>
    decreases path.len(),
{
    if path.len() > 1 && path.last() == '/' {
        without_trailing_separators(path.drop_last())
    } else {
        path
    }
}

/// True for a path that starts at the root directory. Paths in this library
/// follow the Unix family's syntax, with `/` as the separator.
pub open spec fn is_absolute_path(path: Seq<char>) -> bool {
    path.len() > 0 && path[0] == '/'
}

/// The name under which `target` is kept when it is moved out of the way for
/// the `i`-th time: its final component followed by `.bak.<i>`, in the same
/// parent directory.
pub open spec fn backup_name(target: Seq<char>, i: nat) -> Seq<char> {
    without_trailing_separators(target) + ".bak."@ + decimal(i)
}

/// Tells whether a path is absolute.
pub fn is_absolute(path: &str) -> (r: bool)
    ensures
        r == is_absolute_path(path@),
{
    path.unicode_len() > 0 && path.get_char(0) == '/'
}

/// Drops the separators that end `path`, keeping one if nothing else is left.
pub fn trim_trailing_separators(path: &str) -> (r: &str)
    ensures
        r@ == without_trailing_separators(path@),
{
    let mut n = path.unicode_len();
    assert(path@.subrange(0, n as int) =~= path@);
    while n > 1 && path.get_char(n - 1) == '/'
        invariant
            n <= path@.len(),
            without_trailing_separators(path@) == without_trailing_separators(path@.subrange(0, n as int)),
        decreases n,
    {
        assert(path@.subrange(0, n as int).drop_last() =~= path@.subrange(0, n - 1));
        n = n - 1;
    }
    path.substring_char(0, n)
}

fn digit_str(d: u32) -> (r: &'static str)
    requires
        d < 10,
    ensures
        r@ == seq![digit_char(d as int)],
{
    proof {
        reveal_strlit("0123456789");
    }
    let r = DIGITS.substring_char(d as usize, d as usize + 1);
    assert(r@ =~= seq![digit_char(d as int)]);
    r
}

proof fn lemma_decimal_last_digit(m: nat)
    requires
        m > 0,
    ensures
        decimal(m) == (if m / 10 == 0 {
            Seq::<char>::empty()
        } else {
            decimal(m / 10)
        }).push(digit_char((m % 10) as int)),
{
    if m < 10 {
        assert(seq![digit_char(m as int)] =~= Seq::<char>::empty().push(digit_char((m % 10) as int)));
    }
}

/// The decimal notation of `n`.
pub fn decimal_string(n: u32) -> (r: String)
    ensures
        r@ == decimal(n as nat),
{
    let mut m: u32 = n / 10;
    let mut r = String::from_str(digit_str(n % 10));
    proof {
        if n > 0 {
            lemma_decimal_last_digit(n as nat);
        }
        assert(n == 0 ==> decimal(n as nat) == seq![digit_char(0)]);
        if m == 0 {
            assert(decimal(n as nat) =~= Seq::<char>::empty() + r@);
        } else {
            assert(decimal(n as nat) =~= decimal(m as nat) + r@);
        }
    }
    while m > 0
        invariant
            decimal(n as nat) == (if m == 0 {
                Seq::<char>::empty()
            } else {
                decimal(m as nat)
            }) + r@,
        decreases m,
    {
        let mut d = String::from_str(digit_str(m % 10));
        d.append(r.as_str());
        proof {
            lemma_decimal_last_digit(m as nat);
            let rest = if m / 10 == 0 {
                Seq::<char>::empty()
            } else {
                decimal((m / 10) as nat)
            };
            assert(decimal(m as nat) + r@ =~= rest + d@);
        }
        r = d;
        m = m / 10;
    }
    assert(decimal(n as nat) =~= r@);
    r
}

/// Builds the backup name of `target` with index `i`.
pub fn make_backup_name(target: &String, i: u32) -> (r: String)
    ensures
        r@ == backup_name(target@, i as nat),
{
    proof {
        reveal_strlit(".bak.");
    }
    let mut r = String::from_str(trim_trailing_separators(target.as_str()));
    r.append(".bak.");
    let digits = decimal_string(i);
    r.append(digits.as_str());
    assert(r@ =~= backup_name(target@, i as nat));
    r
}

/// True when `dest` starts with the home marker: `~` alone or `~/...`.
pub open spec fn has_home_marker(dest: Seq<char>) -> bool {
    dest.len() >= 1 && dest[0] == '~' && (dest.len() == 1 || dest[1] == '/')
}

/// `dest` with its leading `~` replaced by `home`, with one separator between
/// the two.
pub open spec fn expanded(dest: Seq<char>, home: Seq<char>) -> Seq<char> {
    let rest = dest.subrange(1, dest.len() as int);
    if home.len() > 0 && home.last() == '/' && rest.len() > 0 {
        home.drop_last() + rest
    } else {
        home + rest
    }
}

/// `rel` resolved against the directory `root`: an absolute `rel` stands as
/// it is, otherwise the two are joined with one separator.
pub open spec fn joined(root: Seq<char>, rel: Seq<char>) -> Seq<char> {
    if rel.len() > 0 && rel[0] == '/' {
        rel
    } else if root.len() == 0 {
        rel
    } else if root.last() == '/' {
        root + rel
    } else {
        root + seq!['/'] + rel
    }
}

/// Tells whether a destination starts with the home marker.
pub fn starts_with_home_marker(dest: &str) -> (r: bool)
    ensures
        r == has_home_marker(dest@),
{
    let n = dest.unicode_len();
    if n == 0 || dest.get_char(0) != '~' {
        false
    } else {
        n == 1 || dest.get_char(1) == '/'
    }
}

/// Replaces the home marker at the start of `dest` by `home`; any other
/// destination is returned as it is.
pub fn expand_home(dest: &String, home: &String) -> (r: String)
    ensures
        r@ == if has_home_marker(dest@) {
            expanded(dest@, home@)
        } else {
            dest@
        },
{
    if starts_with_home_marker(dest.as_str()) {
        let n = dest.as_str().unicode_len();
        let hn = home.as_str().unicode_len();
        let mut r = if hn > 0 && n > 1 && home.as_str().get_char(hn - 1) == '/' {
            String::from_str(home.as_str().substring_char(0, hn - 1))
        } else {
            home.clone()
        };
        r.append(dest.as_str().substring_char(1, n));
        r
    } else {
        dest.clone()
    }
}

/// Resolves `rel` against the directory `root`.
pub fn join_path(root: &String, rel: &String) -> (r: String)
    ensures
        r@ == joined(root@, rel@),
{
    proof {
        reveal_strlit("/");
    }
    let rn = rel.as_str().unicode_len();
    let n = root.as_str().unicode_len();
    if rn > 0 && rel.as_str().get_char(0) == '/' {
        rel.clone()
    } else if n == 0 {
        rel.clone()
    } else if root.as_str().get_char(n - 1) == '/' {
        let mut r = root.clone();
        r.append(rel.as_str());
        r
    } else {
        let mut r = root.clone();
        r.append("/");
        r.append(rel.as_str());
        assert(r@ =~= root@ + seq!['/'] + rel@);
        r
    }
}

/// Relies on dirs::home_dir: the user's home directory, when one is known.
/// What it returns depends on the environment of the process.
#[verifier::external_body]
pub(crate) fn home_dir() -> Option<String> {
    match dirs::home_dir() {
        Some(p) => Some(p.to_string_lossy().into_owned()),
        None => None,
    }
}

} // verus!
