//! Command-line arguments: which options were given, and with which values.

use crate::record::{put, Entry, Record};
use crate::text::{find, lemma_find_is, push_char};
use vstd::prelude::*;
use vstd::string::*;

verus! {

/// The long form of an option: two hyphens, then its name.
pub open spec fn long_form(key: Seq<char>) -> Seq<char> {
    seq!['-', '-'] + key
}

/// The short form of an option: a hyphen, then the first character of its
/// name.
pub open spec fn short_form(key: Seq<char>) -> Seq<char> {
    seq!['-', key[0]]
}

/// `arg` names the option `key`, in its long form or in its short one. An
/// option without a name has no short form.
pub open spec fn is_flag_for(arg: Seq<char>, key: Seq<char>) -> bool {
    arg == long_form(key) || (key.len() > 0 && arg == short_form(key))
}

/// For each option, whether `arg` names it.
pub open spec fn flags(arg: Seq<char>, keys: Seq<Seq<char>>) -> Seq<bool> {
    Seq::new(keys.len(), |i: int| is_flag_for(arg, keys[i]))
}

/// The option that `arg` names: the first of `keys` that it names, if it
/// names any.
pub open spec fn key_of(arg: Seq<char>, keys: Seq<Seq<char>>) -> Option<Seq<char>> {
    let i = find(flags(arg, keys), true) as int;
    if i < keys.len() {
        Some(keys[i])
    } else {
        None
    }
}

/// Where the evaluation stands after the first `n` arguments: the option
/// named last, and the options found so far with their values. An argument
/// that names an option makes it the current one and empties its value; any
/// other argument becomes the value of the current option, and is dropped
/// while there is none.
pub open spec fn evaluate_upto(args: Seq<Seq<char>>, keys: Seq<Seq<char>>, n: nat) -> (
    Option<Seq<char>>,
    Seq<Entry>,
)
    decreases n,
{
    if n == 0 {
        (None, Seq::empty())
    } else {
        let (current, found) = evaluate_upto(args, keys, (n - 1) as nat);
        let arg = args[n - 1];
        match key_of(arg, keys) {
            Some(key) => (Some(key), put(found, key, Seq::empty())),
            None => match current {
                Some(key) => (current, put(found, key, arg)),
                None => (current, found),
            },
        }
    }
}

/// The options that the arguments give, each with its value.
pub open spec fn evaluated(args: Seq<Seq<char>>, keys: Seq<Seq<char>>) -> Seq<Entry> {
    evaluate_upto(args, keys, args.len()).1
}

/// Finds the option that `arg` names.
pub fn check_key(arg: String, keys: &Vec<String>) -> (found: Option<String>)
    ensures
        match found {
            Some(key) => key_of(arg@, keys.deep_view()) == Some(key@),
            None => key_of(arg@, keys.deep_view()) is None,
        },
{
    let mut i: usize = 0;
    while i < keys.len()
        invariant
            i <= keys.len(),
            forall|j: int| 0 <= j < i ==> !flags(arg@, keys.deep_view())[j],
        decreases keys.len() - i,
    {
        let key = &keys[i];
        let mut long = String::from_str("--");
        long.append(key.as_str());
        proof {
            reveal_strlit("--");
            reveal_strlit("-");
            assert(long@ == long_form(key@));
        }
        let mut hit = arg == long;
        if !hit && !key.as_str().is_empty() {
            let mut short = String::from_str("-");
            push_char(&mut short, key.as_str().get_char(0));
            assert(short@ == short_form(key@));
            hit = arg == short;
        }
        if hit {
            proof {
                lemma_find_is(flags(arg@, keys.deep_view()), true, i as int);
            }
            return Some(key.clone());
        }
        i += 1;
    }
    proof {
        lemma_find_is(flags(arg@, keys.deep_view()), true, i as int);
    }
    None
}

/// Evaluates the arguments of a command line against the options `keys`.
pub fn evaluate(args: Vec<String>, keys: &Vec<String>) -> (ret: Record)
    ensures
        ret.entries() == evaluated(args.deep_view(), keys.deep_view()),
{
    let mut ret = Record::new();
    let mut current_key: Option<String> = None;
    let mut i: usize = 0;
    while i < args.len()
        invariant
            i <= args.len(),
            ret.entries() == evaluate_upto(args.deep_view(), keys.deep_view(), i as nat).1,
            match current_key {
                Some(key) => evaluate_upto(args.deep_view(), keys.deep_view(), i as nat).0 == Some(
                    key@,
                ),
                None => evaluate_upto(args.deep_view(), keys.deep_view(), i as nat).0 is None,
            },
        decreases args.len() - i,
    {
        let arg = args[i].clone();
        match check_key(arg.clone(), keys) {
            Some(key) => {
                current_key = Some(key.clone());
                ret.insert(key, String::new());
            },
            None => {
                if let Some(key) = current_key.clone() {
                    ret.insert(key, arg);
                }
            },
        }
        i += 1;
    }
    ret
}

/// The value given for the option `key`, if it was given.
pub fn set_data(map: &Record, key: &String) -> (value: Option<String>)
    ensures
        match value {
            Some(v) => map@.contains_key(key@) && v@ == map@[key@],
            None => !map@.contains_key(key@),
        },
{
    match map.get(key) {
        Some(v) => Some(v.clone()),
        None => None,
    }
}

} // verus!
