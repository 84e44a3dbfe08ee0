use vstd::prelude::*;

use crate::token::{Token, TokenType, TokenView};

verus! {

#[derive(Debug, Clone, Copy, PartialEq, Eq, Structural)]
pub enum VariableType {
    Entero,
    Real,
}

/// What identifies a variable: the kind and the text of its token.
pub type Key = (TokenType, Seq<char>);

pub open spec fn key_of(t: TokenView) -> Key {
    (t.token_type, t.lexeme)
}

/// The index of the first occurrence of `k` in `ks`.
pub open spec fn first_index<K>(ks: Seq<K>, k: K) -> Option<nat>
    decreases ks.len(),
{
    if ks.len() == 0 {
        None
    } else {
        match first_index(ks.drop_last(), k) {
            Some(i) => Some(i),
            None => if ks.last() == k {
                Some((ks.len() - 1) as nat)
            } else {
                None
            },
        }
    }
}

pub proof fn lemma_first_index<K>(ks: Seq<K>, k: K)
    ensures
        match first_index(ks, k) {
            Some(i) => i < ks.len() && ks[i as int] == k && forall|j: int| 0 <= j < i ==> ks[j] != k,
            None => forall|j: int| 0 <= j < ks.len() ==> ks[j] != k,
        },
    decreases ks.len(),
{
    if ks.len() > 0 {
        let d = ks.drop_last();
        lemma_first_index(d, k);
        assert forall|j: int| 0 <= j < d.len() implies d[j] == ks[j] by {}
    }
}

pub proof fn lemma_first_index_push<K>(ks: Seq<K>, x: K, k: K)
    ensures
        first_index(ks.push(x), k) == match first_index(ks, k) {
            Some(i) => Some(i),
            None => if x == k {
                Some(ks.len())
            } else {
                None
            },
        },
{
    assert(ks.push(x).drop_last() =~= ks);
}

/// A declared variable: its token, its declaration index and its type.
#[derive(Debug)]
pub struct Variable {
    pub token: Token,
    pub index: usize,
    pub variable_type: VariableType,
}

impl Clone for Variable {
    fn clone(&self) -> (r: Variable)
        ensures
            r == *self,
    {
        Variable { token: self.token.clone(), index: self.index, variable_type: self.variable_type }
    }
}

impl Variable {
    pub fn new(token: Token, index: usize, variable_type: VariableType) -> (r: Variable)
        ensures
            r.token == token,
            r.index == index,
            r.variable_type == variable_type,
    {
        Variable { token, index, variable_type }
    }
}

/// The symbol table: declared variables in declaration order. A variable's
/// declaration index is its position, and it stands for the variable in
/// the expression DAG.
#[derive(Debug)]
pub struct SymbolsTable {
    pub table: Vec<Variable>,
}

impl SymbolsTable {
    /// The keys of the declared variables, in declaration order.
    pub open spec fn keys(&self) -> Seq<Key> {
        self.table@.map_values(|v: Variable| key_of(v.token@))
    }

    /// The declared types, in declaration order.
    pub open spec fn types(&self) -> Seq<VariableType> {
        self.table@.map_values(|v: Variable| v.variable_type)
    }

    /// Each variable sits at its own index, and no key is declared twice.
    pub open spec fn wf(&self) -> bool {
        &&& forall|i: int| 0 <= i < self.table@.len() ==> self.table@[i].index == i
        &&& forall|i: int, j: int|
            0 <= i < j < self.table@.len() ==> key_of(self.table@[i].token@) != key_of(
                self.table@[j].token@,
            )
    }

    pub fn new() -> (r: SymbolsTable)
        ensures
            r.wf(),
            r.keys() == Seq::<Key>::empty(),
    {
        SymbolsTable { table: Vec::new() }
    }

    /// Finds the position of the variable declared with `token`'s key.
    fn find(&self, token: &Token) -> (r: Option<usize>)
        ensures
            r is Some <==> first_index(self.keys(), key_of(token@)) is Some,
            r is Some ==> first_index(self.keys(), key_of(token@)) == Some(r->0 as nat) && r->0
                < self.table@.len(),
    {
        let mut i: usize = 0;
        while i < self.table.len()
            invariant
                i <= self.table@.len(),
                forall|j: int| 0 <= j < i ==> self.keys()[j] != key_of(token@),
            decreases self.table@.len() - i,
        {
            let v = &self.table[i];
            assert(self.keys()[i as int] == key_of(self.table@[i as int].token@));
            if v.token.token_type == token.token_type && v.token.lexeme == token.lexeme {
                proof {
                    lemma_first_index(self.keys(), key_of(token@));
                }
                return Some(i);
            }
            i += 1;
        }
        proof {
            lemma_first_index(self.keys(), key_of(token@));
        }
        None
    }

    /// Declares the variable of `token` unless its key is declared already
    /// (the first declaration wins), and returns its declaration index.
    pub fn add(&mut self, token: &Token, variable_type: &VariableType) -> (r: u64)
        requires
            old(self).wf(),
        ensures
            final(self).wf(),
            final(self).keys() == declare(old(self).keys(), token@),
            Some(r as nat) == first_index(final(self).keys(), key_of(token@)),
            first_index(old(self).keys(), key_of(token@)) is None ==> final(self).types() == old(
                self,
            ).types().push(*variable_type),
            first_index(old(self).keys(), key_of(token@)) is Some ==> final(self).types() == old(
                self,
            ).types(),
            first_index(old(self).keys(), key_of(token@)) is Some ==> final(self).table@ == old(self).table@,
            first_index(old(self).keys(), key_of(token@)) is None ==> final(self).table@ == old(
                self,
            ).table@.push(Variable { token: *token, index: old(self).table@.len() as usize, variable_type: *variable_type }),
    {
        match self.find(token) {
            Some(i) => i as u64,
            None => {
                let ghost old_keys = self.keys();
                let n = self.table.len();
                let var = Variable::new(token.clone(), n, *variable_type);
                self.table.push(var);
                proof {
                    assert(self.keys() =~= old_keys.push(key_of(token@)));
                    assert(self.types() =~= old(self).types().push(*variable_type));
                    lemma_first_index(old_keys, key_of(token@));
                    lemma_first_index_push(old_keys, key_of(token@), key_of(token@));
                    assert forall|i: int, j: int| 0 <= i < j < self.table@.len() implies key_of(
                        self.table@[i].token@,
                    ) != key_of(self.table@[j].token@) by {
                        if j == n {
                            assert(self.keys()[i] == old_keys[i]);
                        }
                    }
                }
                n as u64
            },
        }
    }

    pub fn clear(&mut self)
        ensures
            final(self).wf(),
            final(self).keys() == Seq::<Key>::empty(),
            final(self).types() == Seq::<VariableType>::empty(),
            final(self).table@.len() == 0,
    {
        self.table.clear();
        assert(self.keys() =~= Seq::<Key>::empty());
        assert(self.types() =~= Seq::<VariableType>::empty());
    }

    /// The variable with declaration index `hash`, if there is one.
    pub fn get(&self, hash: &u64) -> (r: Option<&Variable>)
        ensures
            (*hash as int) < self.table@.len() ==> r is Some && *r->0 == self.table@[*hash as int],
            (*hash as int) >= self.table@.len() ==> r is None,
    {
        if (*hash as usize) < self.table.len() && *hash <= (usize::MAX as u64) {
            Some(&self.table[*hash as usize])
        } else {
            None
        }
    }

    /// The variable declared with `token`'s key, if there is one.
    pub fn get_from_token(&self, token: &Token) -> (r: Option<&Variable>)
        ensures
            match first_index(self.keys(), key_of(token@)) {
                Some(i) => r is Some && *r->0 == self.table@[i as int],
                None => r is None,
            },
    {
        proof {
            lemma_first_index(self.keys(), key_of(token@));
        }
        let found = self.find(token);
        match found {
            Some(i) => {
                assert(first_index(self.keys(), key_of(token@)) == Some(i as nat));
                Some(&self.table[i])
            },
            None => None,
        }
    }

    /// The declaration index of `token`'s variable, if it is declared.
    pub fn get_hash_if_set(&self, token: &Token) -> (r: Option<u64>)
        requires
            self.wf(),
        ensures
            r == lookup(self.keys(), token@),
    {
        match self.find(token) {
            Some(i) => Some(i as u64),
            None => None,
        }
    }
}

impl Clone for SymbolsTable {
    fn clone(&self) -> (r: SymbolsTable)
        ensures
            r.table@ == self.table@,
    {
        let mut table: Vec<Variable> = Vec::new();
        let mut i: usize = 0;
        while i < self.table.len()
            invariant
                i <= self.table@.len(),
                table@ == self.table@.subrange(0, i as int),
            decreases self.table@.len() - i,
        {
            table.push(self.table[i].clone());
            i += 1;
            assert(table@ =~= self.table@.subrange(0, i as int));
        }
        assert(table@ =~= self.table@);
        SymbolsTable { table }
    }
}

/// The keys after declaring `t`: unchanged if its key is there already.
pub open spec fn declare(keys: Seq<Key>, t: TokenView) -> Seq<Key> {
    if first_index(keys, key_of(t)) is Some {
        keys
    } else {
        keys.push(key_of(t))
    }
}

/// The declaration index of `t`'s variable among `keys`.
pub open spec fn lookup(keys: Seq<Key>, t: TokenView) -> Option<u64> {
    match first_index(keys, key_of(t)) {
        Some(i) => Some(i as u64),
        None => None,
    }
}

} // verus!
