//! Resolution of the environment file name from the configured suffix and an
//! optional runtime override.

use vstd::prelude::*;
use vstd::string::*;

verus! {

/// The five characters `".env."` from which every resolved name is composed.
pub open spec fn env_prefix() -> Seq<char> {
    seq!['.', 'e', 'n', 'v', '.']
}

/// What remains of `s` once every trailing `'.'` is removed.
pub open spec fn strip_trailing_dots(s: Seq<char>) -> Seq<char>
    decreases s.len(),
{
    if s.len() > 0 && s.last() == '.' {
        strip_trailing_dots(s.drop_last())
    } else {
        s
    }
}

/// The file name derived from a suffix: `".env." + suffix` with every
/// trailing `'.'` removed, so that an empty suffix yields exactly `".env"`.
pub open spec fn filename_of_suffix(suffix: Seq<char>) -> Seq<char> {
    strip_trailing_dots(env_prefix() + suffix)
}

/// The suffix that resolution uses: a present, non-empty override wins;
/// otherwise the configured `dotenv_suffix`.
pub open spec fn effective_suffix(
    dotenv_suffix: Seq<char>,
    override_suffix: Option<Seq<char>>,
) -> Seq<char> {
    match override_suffix {
        Some(o) => if o.len() > 0 {
            o
        } else {
            dotenv_suffix
        },
        None => dotenv_suffix,
    }
}

/// The name of the environment file, given the configured suffix and the
/// optional override.
pub open spec fn resolved_filename(
    dotenv_suffix: Seq<char>,
    override_suffix: Option<Seq<char>>,
) -> Seq<char> {
    filename_of_suffix(effective_suffix(dotenv_suffix, override_suffix))
}

pub open spec fn opt_str_view(o: Option<&str>) -> Option<Seq<char>> {
    match o {
        Some(s) => Some(s@),
        None => None,
    }
}

proof fn lemma_strip_trailing_dots_take(s: Seq<char>, hi: int)
    requires
        0 <= hi <= s.len(),
        forall|k: int| hi <= k < s.len() ==> s[k] == '.',
        hi == 0 || s[hi - 1] != '.',
    ensures
        strip_trailing_dots(s) == s.take(hi),
    decreases s.len(),
{
    if s.len() == hi {
        assert(s.take(hi) =~= s);
    } else {
        assert(s[s.len() - 1] == '.');
        lemma_strip_trailing_dots_take(s.drop_last(), hi);
        assert(s.drop_last().take(hi) =~= s.take(hi));
    }
}

/// The buildpack's configuration: the suffix that selects which `.env` file
/// the build reads.
pub struct DotenvBuildpackMetadata {
    pub dotenv_suffix: String,
}

impl DotenvBuildpackMetadata {
    /// Resolve the environment file name. A present, non-empty override
    /// suffix takes precedence over the configured one; the result is
    /// `".env." + suffix` with trailing dots stripped, hence `".env"` for an
    /// empty suffix.
    pub fn filename(&self, override_suffix: Option<&str>) -> (r: String)
        ensures
            r@ == resolved_filename(self.dotenv_suffix@, opt_str_view(override_suffix)),
    {
        let suffix: &str = match override_suffix {
            Some(o) => if o.is_empty() {
                self.dotenv_suffix.as_str()
            } else {
                o
            },
            None => self.dotenv_suffix.as_str(),
        };
        let mut composed = String::from_str(".env.");
        composed.append(suffix);
        proof {
            reveal_strlit(".env.");
            assert(".env."@ =~= env_prefix());
        }
        let cs = composed.as_str();
        let n = cs.unicode_len();
        let mut hi: usize = n;
        loop
            invariant
                hi <= n,
                n as nat == cs@.len(),
                forall|k: int| hi <= k < cs@.len() ==> cs@[k] == '.',
            ensures
                hi <= n,
                forall|k: int| hi <= k < cs@.len() ==> cs@[k] == '.',
                hi == 0 || cs@[hi - 1] != '.',
            decreases hi,
        {
            if hi == 0 {
                break;
            }
            let c = cs.get_char(hi - 1);
            if c != '.' {
                break;
            }
            hi = hi - 1;
        }
        let stripped = cs.substring_char(0, hi);
        proof {
            lemma_strip_trailing_dots_take(cs@, hi as int);
            assert(cs@.subrange(0, hi as int) == cs@.take(hi as int));
        }
        stripped.to_owned()
    }
}

/// Law: with no override, an empty suffix resolves to `".env"`, and a
/// non-empty suffix that does not itself end in `'.'` resolves to
/// `".env." + suffix`.
pub proof fn lemma_resolved_filename_from_suffix(s: Seq<char>)
    requires
        s.len() == 0 || s.last() != '.',
    ensures
        s.len() == 0 ==> resolved_filename(s, None) == seq!['.', 'e', 'n', 'v'],
        s.len() > 0 ==> resolved_filename(s, None) == env_prefix() + s,
{
    if s.len() == 0 {
        assert(env_prefix() + s =~= env_prefix());
        lemma_strip_trailing_dots_take(env_prefix(), 4);
        assert(env_prefix().take(4) =~= seq!['.', 'e', 'n', 'v']);
    } else {
        let c = env_prefix() + s;
        assert(c[c.len() - 1] == s[s.len() - 1]);
        lemma_strip_trailing_dots_take(c, c.len() as int);
        assert(c.take(c.len() as int) =~= c);
    }
}

/// Law: a present, non-empty override determines the resolved name by
/// itself; the configured suffix plays no part in the result.
pub proof fn lemma_override_takes_precedence(a: Seq<char>, b: Seq<char>, o: Seq<char>)
    requires
        o.len() > 0,
    ensures
        resolved_filename(a, Some(o)) == resolved_filename(b, Some(o)),
        resolved_filename(a, Some(o)) == filename_of_suffix(o),
{
}

} // verus!
