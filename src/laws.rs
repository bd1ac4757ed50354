use vstd::prelude::*;

use crate::parser::{is_key_token, key_of, ArgError, ParserModel};
use crate::value::{accepts, converted, ArgValue};

verus! {

/// Handing out a key-value argument's value clears it: a second hand-out finds nothing.
pub proof fn lemma_kv_take_twice(m: ParserModel, name: Seq<char>)
    requires
        m.wf(),
    ensures
        m.take_kv(name).kv_token(name).is_none(),
{
    let t = m.take_kv(name);
    if let Some(i) = m.find_kv_named(name) {
        assert(t.kv[i].name == name);
        assert(exists|k: int| 0 <= k < t.kv.len() && t.kv[k].name == name);
        let k = choose|k: int| 0 <= k < t.kv.len() && t.kv[k].name == name;
        if k != i {
            assert(t.kv[k] == m.kv[k]);
            assert(has_key_of(m, k, name) && has_key_of(m, i, name));
        }
    }
}

spec fn has_key_of(m: ParserModel, i: int, key: Seq<char>) -> bool {
    crate::parser::has_key(m.kv[i].name, m.kv[i].short_key, key)
}

/// Handing out a positional argument's value clears it: a second hand-out finds nothing.
pub proof fn lemma_pos_take_twice(m: ParserModel, name: Seq<char>)
    requires
        m.wf(),
    ensures
        m.take_pos(name).pos_token(name).is_none(),
{
    let t = m.take_pos(name);
    if let Some(i) = m.find_pos(name) {
        assert(t.pos[i].name == name);
        assert(exists|k: int| 0 <= k < t.pos.len() && t.pos[k].name == name);
        let k = choose|k: int| 0 <= k < t.pos.len() && t.pos[k].name == name;
        if k < i {
            assert(m.pos[k].name != m.pos[i].name);
        } else if k > i {
            assert(m.pos[i].name != m.pos[k].name);
        }
    }
}

/// A key-value argument that holds a value hands out a converted `T`, when `T` is the
/// type it was registered with.
pub proof fn lemma_kv_found_converts<T: ArgValue>(m: ParserModel, name: Seq<char>)
    requires
        m.wf(),
        m.kv_found(name),
        m.kv[m.find_kv_named(name).unwrap()].kind == T::spec_kind(),
    ensures
        converted::<T>(m.kv_token(name)).is_some(),
{
    let i = m.find_kv_named(name).unwrap();
    T::lemma_kind_accepts(m.kv[i].val.unwrap());
}

/// A positional argument that holds a value hands out a converted `T`, when `T` is the
/// type it was registered with.
pub proof fn lemma_pos_found_converts<T: ArgValue>(m: ParserModel, name: Seq<char>)
    requires
        m.wf(),
        m.pos_found(name),
        m.pos[m.find_pos(name).unwrap()].kind == T::spec_kind(),
    ensures
        converted::<T>(m.pos_token(name)).is_some(),
{
    let i = m.find_pos(name).unwrap();
    T::lemma_kind_accepts(m.pos[i].val.unwrap());
}

/// A value token that does not convert leaves its key-value argument without a value;
/// the failure is silent.
pub proof fn lemma_failed_conversion_not_found(m: ParserModel, k: int, tok: Seq<char>)
    requires
        0 <= k < m.kv.len(),
        !accepts(m.kv[k].kind, tok),
    ensures
        m.set_kv(k, tok).kv[k].val.is_none(),
{
}

/// More bare tokens than free positional slots: matching fails with `TooManyPositional`
/// at the first token that finds no slot.
pub proof fn lemma_too_many_positional(m: ParserModel, tokens: Seq<Seq<char>>, i: int, cursor: int)
    requires
        0 <= i <= tokens.len(),
        0 <= cursor <= m.pos.len(),
        forall|j: int| i <= j < tokens.len() ==> !is_key_token(#[trigger] tokens[j]),
        tokens.len() - i > m.pos.len() - cursor,
    ensures
        m.run(tokens, i, cursor) == Err::<ParserModel, ArgError>(
            ArgError::TooManyPositional { index: (i + m.pos.len() - cursor) as usize },
        ),
    decreases tokens.len() - i,
{
    assert(!is_key_token(tokens[i]));
    if cursor < m.pos.len() {
        lemma_too_many_positional(m.set_pos(cursor, tokens[i]), tokens, i + 1, cursor + 1);
    }
}

/// A key token that resolves to no registered key fails the match with `UnknownKey`.
pub proof fn lemma_unknown_key(m: ParserModel, tokens: Seq<Seq<char>>, i: int, cursor: int)
    requires
        0 <= i < tokens.len(),
        is_key_token(tokens[i]),
        !m.key_taken(key_of(tokens[i])),
    ensures
        m.run(tokens, i, cursor) == Err::<ParserModel, ArgError>(ArgError::UnknownKey { index: i as usize }),
{
}

/// A flag consumes no following token: matching goes on with the very next token.
pub proof fn lemma_flag_consumes_nothing(m: ParserModel, tokens: Seq<Seq<char>>, i: int, cursor: int)
    requires
        0 <= i < tokens.len(),
        is_key_token(tokens[i]),
        m.find_kv(key_of(tokens[i])).is_none(),
        m.find_flag(key_of(tokens[i])) matches Some(f) && !m.flags[f].found,
    ensures
        m.run(tokens, i, cursor) == m.set_flag(m.find_flag(key_of(tokens[i])).unwrap()).run(tokens, i + 1, cursor),
{
}

/// A key-value key takes the very next token as its value, whatever that token looks like,
/// and matching goes on after it.
pub proof fn lemma_kv_takes_next_token(m: ParserModel, tokens: Seq<Seq<char>>, i: int, cursor: int)
    requires
        0 <= i,
        i + 1 < tokens.len(),
        is_key_token(tokens[i]),
        m.find_kv(key_of(tokens[i])) matches Some(k) && m.kv[k].val.is_none(),
    ensures
        m.run(tokens, i, cursor) == m.set_kv(m.find_kv(key_of(tokens[i])).unwrap(), tokens[i + 1]).run(
            tokens,
            i + 2,
            cursor,
        ),
{
}

} // verus!
