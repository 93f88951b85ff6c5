//! The command launcher's decision logic: splitting a command line
//! into whitespace-separated tokens and building the launch plan —
//! either the first token as the program with the rest as arguments,
//! or the whole token list handed to the command interpreter when
//! shell-wrapped execution is forced or the program is a shell
//! built-in from the exception list.

use vstd::prelude::*;

use crate::config::Config;
use crate::history::contains_line;
use crate::text::is_space;
use crate::text::push_char;

verus! {

/// The tokens of `rest`, given that the characters of `cur` have
/// already been read from the current token.
pub open spec fn tokens_rec(cur: Seq<char>, rest: Seq<char>) -> Seq<Seq<char>>
    decreases rest.len(),
{
    if rest.len() == 0 {
        if cur.len() == 0 {
            Seq::empty()
        } else {
            seq![cur]
        }
    } else if is_space(rest[0]) {
        if cur.len() == 0 {
            tokens_rec(Seq::empty(), rest.drop_first())
        } else {
            seq![cur] + tokens_rec(Seq::empty(), rest.drop_first())
        }
    } else {
        tokens_rec(cur.push(rest[0]), rest.drop_first())
    }
}

/// The whitespace-separated tokens of a command line: maximal runs of
/// non-separator characters, in order.
pub open spec fn spec_tokens(s: Seq<char>) -> Seq<Seq<char>> {
    tokens_rec(Seq::empty(), s)
}

/// Decides `is_space` on one character.
fn is_space_exec(c: char) -> (r: bool)
    ensures
        r == is_space(c),
{
    let u: u32 = c as u32;
    (0x9 <= u && u <= 0xd) || c == ' ' || c == '\u{85}' || c == '\u{a0}' || c == '\u{1680}' || (
    0x2000 <= u && u <= 0x200a) || c == '\u{2028}' || c == '\u{2029}' || c == '\u{202f}' || c
        == '\u{205f}' || c == '\u{3000}'
}

/// Splits a command line into its whitespace-separated tokens.
pub fn tokenize(line: &str) -> (r: Vec<String>)
    ensures
        r.deep_view() == spec_tokens(line@),
{
    let len = line.unicode_len();
    let mut r: Vec<String> = Vec::new();
    let mut cur = String::new();
    let mut cur_len: usize = 0;
    let mut i: usize = 0;
    proof {
        assert(line@.skip(0) =~= line@);
        assert(r.deep_view() =~= Seq::<Seq<char>>::empty());
    }
    while i < len
        invariant
            i <= len,
            len == line@.len(),
            cur_len == cur@.len(),
            cur_len <= i,
            spec_tokens(line@) == r.deep_view() + tokens_rec(cur@, line@.skip(i as int)),
        decreases len - i,
    {
        let c = line.get_char(i);
        proof {
            assert(line@.skip(i as int)[0] == c);
            assert(line@.skip(i as int).drop_first() =~= line@.skip(i + 1));
        }
        if is_space_exec(c) {
            if cur_len > 0 {
                let ghost prev = r.deep_view();
                let ghost word = cur@;
                r.push(cur);
                proof {
                    assert(r.deep_view() =~= prev.push(word));
                    assert(prev + (seq![word] + tokens_rec(Seq::empty(), line@.skip(i + 1)))
                        =~= prev.push(word) + tokens_rec(Seq::empty(), line@.skip(i + 1)));
                }
                cur = String::new();
                cur_len = 0;
            } else {
                proof {
                    assert(cur@ =~= Seq::<char>::empty());
                }
            }
        } else {
            push_char(&mut cur, c);
            cur_len = cur_len + 1;
        }
        i = i + 1;
    }
    proof {
        assert(line@.skip(len as int) =~= Seq::<char>::empty());
    }
    if cur_len > 0 {
        let ghost prev = r.deep_view();
        let ghost word = cur@;
        r.push(cur);
        proof {
            assert(r.deep_view() =~= prev.push(word));
            assert(prev + seq![word] =~= prev.push(word));
        }
    } else {
        proof {
            assert(cur@ =~= Seq::<char>::empty());
            assert(r.deep_view() + tokens_rec(Seq::<char>::empty(), Seq::<char>::empty())
                =~= r.deep_view());
        }
    }
    r
}

/// What to start and with which argument vector.
pub struct LaunchPlan {
    pub program: String,
    pub args: Vec<String>,
}

/// The plan that launches the given tokens shell-wrapped: the command
/// interpreter runs, handed its flag and then the whole token list.
pub open spec fn shell_plan(p: LaunchPlan, tokens: Seq<Seq<char>>, cfg: Config) -> bool {
    p.program@ == cfg.shell_program@ && p.args.deep_view() == seq![cfg.shell_flag@] + tokens
}

/// The plan that launches the given tokens directly: the first token
/// is the program, the rest are its arguments.
pub open spec fn direct_plan(p: LaunchPlan, tokens: Seq<Seq<char>>) -> bool {
    tokens.len() > 0 && p.program@ == tokens[0] && p.args.deep_view() == tokens.drop_first()
}

/// Whether the tokens must run shell-wrapped: the caller forces it, or
/// the program name stands in the exception list of shell built-ins.
pub open spec fn needs_shell(tokens: Seq<Seq<char>>, force_shell: bool, cfg: Config) -> bool {
    force_shell || (tokens.len() > 0 && cfg.exception_commands.deep_view().contains(tokens[0]))
}

/// Builds the launch plan for a command line; `None` when the line
/// holds no token at all.
pub fn build_plan(line: &str, force_shell: bool, cfg: &Config) -> (r: Option<LaunchPlan>)
    ensures
        ({
            let tokens = spec_tokens(line@);
            match r {
                None => tokens.len() == 0,
                Some(p) => tokens.len() > 0 && if needs_shell(tokens, force_shell, *cfg) {
                    shell_plan(p, tokens, *cfg)
                } else {
                    direct_plan(p, tokens)
                },
            }
        }),
{
    let ghost tokens = spec_tokens(line@);
    let mut parts = tokenize(line);
    if parts.len() == 0 {
        return None;
    }
    let wrap = force_shell || contains_line(&cfg.exception_commands, parts[0].as_str());
    proof {
        assert(parts.deep_view()[0] == parts@[0]@);
    }
    if wrap {
        let program = cfg.shell_program.clone();
        let mut args: Vec<String> = Vec::new();
        args.push(cfg.shell_flag.clone());
        let ghost head = args.deep_view();
        r_append(&mut args, parts);
        proof {
            assert(head =~= seq![cfg.shell_flag@]);
        }
        Some(LaunchPlan { program, args })
    } else {
        let program = parts.remove(0);
        proof {
            assert(parts.deep_view() =~= tokens.drop_first());
        }
        Some(LaunchPlan { program, args: parts })
    }
}

/// Moves the entries of `tail` to the end of `v`.
fn r_append(v: &mut Vec<String>, tail: Vec<String>)
    ensures
        final(v).deep_view() == old(v).deep_view() + tail.deep_view(),
{
    let ghost head = old(v).deep_view();
    let ghost tail_dv = tail.deep_view();
    let mut rest = tail;
    v.append(&mut rest);
    proof {
        assert(v.deep_view() =~= head + tail_dv);
    }
}

/// The launch attempts for a command line, in the order they are to be
/// tried: the direct plan and then the shell-wrapped fallback, or the
/// shell-wrapped plan alone when shell execution is already decided;
/// empty when the line holds no token.
pub fn launch_attempts(line: &str, cfg: &Config) -> (r: Vec<LaunchPlan>)
    ensures
        ({
            let tokens = spec_tokens(line@);
            if tokens.len() == 0 {
                r@.len() == 0
            } else if needs_shell(tokens, false, *cfg) {
                r@.len() == 1 && shell_plan(r@[0], tokens, *cfg)
            } else {
                r@.len() == 2 && direct_plan(r@[0], tokens) && shell_plan(r@[1], tokens, *cfg)
            }
        }),
{
    let mut r: Vec<LaunchPlan> = Vec::new();
    match build_plan(line, false, cfg) {
        None => r,
        Some(first) => {
            let shell_already = {
                let parts = tokenize(line);
                contains_line(&cfg.exception_commands, parts[0].as_str())
            };
            proof {
                let tokens = spec_tokens(line@);
                assert(tokens.len() > 0);
            }
            r.push(first);
            if !shell_already {
                match build_plan(line, true, cfg) {
                    None => (),
                    Some(second) => {
                        r.push(second);
                    },
                }
            }
            r
        },
    }
}

} // verus!
