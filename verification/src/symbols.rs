//! The symbol table: labels, constants, variables, local labels scoped
//! between global labels, macro-local symbols and macro definitions.
//! Every name is looked up without regard to ASCII case; the spelling it was
//! defined with is kept for output.

use vstd::prelude::*;
use crate::diagnostics::{AsmError, AsmResult};
use crate::expr::Expr;
use crate::text::{chars_of, upper_vec, upper_seq, chars_eq, string_of, push_chars, fmt_dec, dec_digits};

verus! {

broadcast use vstd::string::group_string_axioms;

/// Information about a defined symbol
#[derive(Debug)]
pub struct SymbolInfo {
    pub value: Option<i64>,
    pub expr: Option<Expr>,
    pub file: String,
    pub line: usize,
    pub is_mutable: bool,
    pub is_local: bool,
    pub scope_id: usize,
    /// Sequential index for local label disambiguation in debug output
    pub local_index: Option<usize>,
}

/// Information about a macro definition
#[derive(Debug)]
pub struct MacroDef {
    pub name: String,
    pub params: Vec<MacroParam>,
    pub body: Vec<String>,
    pub file: String,
    pub line: usize,
}

#[derive(Debug)]
pub struct MacroParam {
    pub name: String,
    pub default: Option<String>,
}

/// A global symbol with the spelling it was defined with.
#[derive(Debug)]
pub struct GlobalEntry {
    pub key: Vec<char>,
    pub name: String,
    pub info: SymbolInfo,
}

/// A local symbol, defined in the scope `scope`.
#[derive(Debug)]
pub struct LocalEntry {
    pub key: Vec<char>,
    pub name: String,
    pub scope: usize,
    pub info: SymbolInfo,
}

/// A macro-local symbol (`MacroName_<call-idx>.SymbolName`).
#[derive(Debug)]
pub struct MacroLocalEntry {
    pub key: Vec<char>,
    pub info: SymbolInfo,
}

/// A macro definition and its case-folded name.
#[derive(Debug)]
pub struct MacroEntry {
    pub key: Vec<char>,
    pub def: MacroDef,
}

/// The symbol table manages labels, constants, variables, and macros
pub struct SymbolTable {
    globals: Vec<GlobalEntry>,
    locals: Vec<LocalEntry>,
    macros: Vec<MacroEntry>,
    current_scope: usize,
    current_global_label: Option<String>,
    macro_call_count: usize,
    local_label_counter: usize,
    macro_locals: Vec<MacroLocalEntry>,
    macro_scope_stack: Vec<String>,
}

/// The index of the entry whose key is `k`, when there is one.
pub open spec fn has_key(s: Seq<GlobalEntry>, k: Seq<char>) -> bool {
    exists|i: int| 0 <= i < s.len() && s[i].key@ == k
}

pub open spec fn key_index(s: Seq<GlobalEntry>, k: Seq<char>) -> int {
    choose|i: int| 0 <= i < s.len() && s[i].key@ == k
}

/// The information stored under key `k`.
pub open spec fn lookup_global(s: Seq<GlobalEntry>, k: Seq<char>) -> Option<SymbolInfo> {
    if has_key(s, k) {
        Some(s[key_index(s, k)].info)
    } else {
        None
    }
}

pub open spec fn globals_wf(s: Seq<GlobalEntry>) -> bool {
    &&& forall|i: int| 0 <= i < s.len() ==> #[trigger] s[i].key@ == upper_seq(s[i].name@)
    &&& forall|i: int, j: int| 0 <= i < j < s.len() ==> #[trigger] s[i].key@ != #[trigger] s[j].key@
}

/// The value of the last local symbol defined as `k` in `scope` that has a value.
pub open spec fn lookup_local(s: Seq<LocalEntry>, k: Seq<char>, scope: usize) -> Option<i64>
    decreases s.len(),
{
    if s.len() == 0 {
        None
    } else if s.last().key@ == k && s.last().scope == scope && s.last().info.value is Some {
        s.last().info.value
    } else {
        lookup_local(s.drop_last(), k, scope)
    }
}

/// The last macro-local symbol stored under `k`.
pub open spec fn lookup_macro_local(s: Seq<MacroLocalEntry>, k: Seq<char>) -> Option<SymbolInfo>
    decreases s.len(),
{
    if s.len() == 0 {
        None
    } else if s.last().key@ == k {
        Some(s.last().info)
    } else {
        lookup_macro_local(s.drop_last(), k)
    }
}

pub open spec fn has_macro_key(s: Seq<MacroEntry>, k: Seq<char>) -> bool {
    exists|i: int| 0 <= i < s.len() && s[i].key@ == k
}

pub open spec fn lookup_macro(s: Seq<MacroEntry>, k: Seq<char>) -> Option<MacroDef> {
    if has_macro_key(s, k) {
        Some(s[choose|i: int| 0 <= i < s.len() && s[i].key@ == k].def)
    } else {
        None
    }
}

/// The key under which a macro-local symbol `name` of the expansion `prefix` is stored.
pub open spec fn macro_local_key(prefix: Seq<char>, name: Seq<char>) -> Seq<char> {
    upper_seq(prefix + seq!['.'] + name)
}

/// Resolution through the macro scopes `stack`, innermost (last) first:
/// `Some(v)` when a scope defines the name (`v` may still be unknown).
pub open spec fn resolve_in_scopes(
    ml: Seq<MacroLocalEntry>,
    stack: Seq<Seq<char>>,
    name: Seq<char>,
) -> Option<Option<i64>>
    decreases stack.len(),
{
    if stack.len() == 0 {
        None
    } else {
        match lookup_macro_local(ml, macro_local_key(stack.last(), name)) {
            Some(info) => Some(info.value),
            None => resolve_in_scopes(ml, stack.drop_last(), name),
        }
    }
}

/// The text `MacroName_<n>` naming the `n`-th macro expansion.
pub open spec fn expansion_prefix(name: Seq<char>, n: nat) -> Seq<char> {
    name + seq!['_'] + dec_digits(n)
}

proof fn lemma_lookup_at(s: Seq<GlobalEntry>, i: int)
    requires
        globals_wf(s),
        0 <= i < s.len(),
    ensures
        lookup_global(s, s[i].key@) == Some(s[i].info),
{
    assert(has_key(s, s[i].key@));
    let j = key_index(s, s[i].key@);
    if j != i {
        if j < i {
            assert(s[j].key@ != s[i].key@);
        } else {
            assert(s[i].key@ != s[j].key@);
        }
    }
}

impl SymbolTable {
    pub closed spec fn wf(&self) -> bool {
        &&& globals_wf(self.globals@)
        &&& forall|i: int| 0 <= i < self.locals@.len() ==> #[trigger] self.locals@[i].key@ == upper_seq(
            self.locals@[i].name@)
        &&& forall|i: int| 0 <= i < self.macros@.len() ==> #[trigger] self.macros@[i].key@ == upper_seq(
            self.macros@[i].def.name@)
        &&& forall|i: int, j: int|
            0 <= i < j < self.macros@.len() ==> #[trigger] self.macros@[i].key@
                != #[trigger] self.macros@[j].key@
    }

    /// The global symbol whose case-folded name is `k`.
    pub closed spec fn global(&self, k: Seq<char>) -> Option<SymbolInfo> {
        lookup_global(self.globals@, k)
    }

    /// The value of the local symbol whose case-folded name is `k` in scope `scope`.
    pub closed spec fn local(&self, k: Seq<char>, scope: usize) -> Option<i64> {
        lookup_local(self.locals@, k, scope)
    }

    /// The macro whose case-folded name is `k`.
    pub closed spec fn macro_def(&self, k: Seq<char>) -> Option<MacroDef> {
        lookup_macro(self.macros@, k)
    }

    /// The macro-local symbol stored under the case-folded key `k`.
    pub closed spec fn macro_local(&self, k: Seq<char>) -> Option<SymbolInfo> {
        lookup_macro_local(self.macro_locals@, k)
    }

    /// The global symbols, in the order they were first defined.
    pub closed spec fn global_entries(&self) -> Seq<GlobalEntry> {
        self.globals@
    }

    /// The prefixes of the active macro expansions, outermost first.
    pub closed spec fn scope_stack(&self) -> Seq<Seq<char>> {
        Seq::new(self.macro_scope_stack@.len(), |i: int| self.macro_scope_stack@[i]@)
    }

    pub closed spec fn scope(&self) -> usize {
        self.current_scope
    }

    pub closed spec fn call_count(&self) -> usize {
        self.macro_call_count
    }

    pub closed spec fn local_counter(&self) -> usize {
        self.local_label_counter
    }

    /// The number of local symbols defined so far.
    pub closed spec fn local_count(&self) -> nat {
        self.locals@.len()
    }

    /// The scope of every local symbol is at most the current scope.
    pub closed spec fn scopes_settled(&self) -> bool {
        forall|i: int| 0 <= i < self.locals@.len() ==> #[trigger] self.locals@[i].scope <= self.current_scope
    }

    /// What `resolve` answers for `name`.
    pub open spec fn spec_resolve(&self, name: Seq<char>) -> Option<i64> {
        match resolve_in_scopes_of(self, name) {
            Some(v) => v,
            None => match self.global(upper_seq(name)) {
                Some(info) => info.value,
                None => None,
            },
        }
    }

    /// What `resolve_local` answers for `name`.
    pub open spec fn spec_resolve_local(&self, name: Seq<char>) -> Option<i64> {
        self.local(upper_seq(name), self.scope())
    }

    /// Everything but the global symbols is the same in `self` and `other`.
    pub open spec fn same_but_globals(&self, other: &SymbolTable) -> bool {
        &&& forall|k: Seq<char>, s: usize| self.local(k, s) == other.local(k, s)
        &&& forall|k: Seq<char>| self.macro_def(k) == other.macro_def(k)
        &&& forall|k: Seq<char>| self.macro_local(k) == other.macro_local(k)
        &&& self.scope_stack() == other.scope_stack()
        &&& self.call_count() == other.call_count()
        &&& self.local_counter() == other.local_counter()
        &&& self.local_count() == other.local_count()
    }

    pub fn new() -> (st: Self)
        ensures
            st.wf(),
            st.scope() == 0,
            st.call_count() == 0,
            st.local_counter() == 0,
            st.local_count() == 0,
            st.scope_stack().len() == 0,
            st.scopes_settled(),
            forall|k: Seq<char>| st.global(k) is None,
            forall|k: Seq<char>, s: usize| st.local(k, s) is None,
            forall|k: Seq<char>| st.macro_def(k) is None,
            forall|k: Seq<char>| st.macro_local(k) is None,
    {
        let st = SymbolTable {
            globals: Vec::new(),
            locals: Vec::new(),
            macros: Vec::new(),
            current_scope: 0,
            current_global_label: None,
            macro_call_count: 0,
            local_label_counter: 0,
            macro_locals: Vec::new(),
            macro_scope_stack: Vec::new(),
        };
        proof {
            assert forall|k: Seq<char>, s: usize| st.local(k, s) is None by {
                reveal_with_fuel(lookup_local, 1);
            }
            assert forall|k: Seq<char>| st.macro_local(k) is None by {
                reveal_with_fuel(lookup_macro_local, 1);
            }
        }
        st
    }

    /// Enter a new global label scope
    pub fn enter_scope(&mut self, label: &str)
        requires
            old(self).scope() < usize::MAX,
        ensures
            final(self).scope() == old(self).scope() + 1,
            old(self).wf() ==> final(self).wf(),
            forall|k: Seq<char>| final(self).global(k) == old(self).global(k),
            old(self).same_but_scope(final(self)),
            old(self).scopes_settled() ==> final(self).scopes_settled(),
    {
        self.current_scope += 1;
        self.current_global_label = Some(String::from_str(label));
    }

    /// Everything but the current scope number is the same.
    pub open spec fn same_but_scope(&self, other: &SymbolTable) -> bool {
        &&& forall|k: Seq<char>, s: usize| self.local(k, s) == other.local(k, s)
        &&& forall|k: Seq<char>| self.macro_def(k) == other.macro_def(k)
        &&& forall|k: Seq<char>| self.macro_local(k) == other.macro_local(k)
        &&& self.scope_stack() == other.scope_stack()
        &&& self.call_count() == other.call_count()
        &&& self.local_counter() == other.local_counter()
        &&& self.local_count() == other.local_count()
    }

    pub fn current_scope(&self) -> (r: usize)
        ensures
            r == self.scope(),
    {
        self.current_scope
    }

    /// The index of the global entry with case-folded key `k`.
    fn find_global(&self, k: &[char]) -> (r: Option<usize>)
        requires
            self.wf(),
        ensures
            r matches Some(i) ==> i < self.globals@.len() && self.globals@[i as int].key@ == k@
                && self.global(k@) == Some(self.globals@[i as int].info),
            r is None ==> self.global(k@) is None,
    {
        let mut i: usize = 0;
        while i < self.globals.len()
            invariant
                i <= self.globals@.len(),
                self.wf(),
                forall|j: int| 0 <= j < i ==> self.globals@[j].key@ != k@,
            decreases self.globals@.len() - i,
        {
            if chars_eq(&self.globals[i].key, k) {
                proof { lemma_lookup_at(self.globals@, i as int); }
                return Some(i);
            }
            i += 1;
        }
        None
    }

    /// Stores `info` under `name`: replaces the entry with the same case-folded
    /// name, or adds a new one.
    fn put_global(&mut self, name: &str, key: Vec<char>, info: SymbolInfo)
        requires
            old(self).wf(),
            key@ == upper_seq(name@),
        ensures
            final(self).wf(),
            final(self).global(key@) == Some(info),
            forall|k: Seq<char>| k != key@ ==> final(self).global(k) == old(self).global(k),
            old(self).same_but_globals(final(self)),
            final(self).scope() == old(self).scope(),
            old(self).scopes_settled() == final(self).scopes_settled(),
    {
        let found = self.find_global(&key);
        let ghost old_g = self.globals@;
        match found {
            Some(i) => {
                let old_name = self.globals[i].name.clone();
                let entry = GlobalEntry { key, name: old_name, info };
                self.globals.set(i, entry);
                proof {
                    let s = self.globals@;
                    assert(s[i as int].key@ == old_g[i as int].key@);
                    assert forall|a: int, b: int| 0 <= a < b < s.len() implies #[trigger] s[a].key@
                        != #[trigger] s[b].key@ by {
                        assert(old_g[a].key@ != old_g[b].key@);
                    }
                    assert forall|a: int| 0 <= a < s.len() implies #[trigger] s[a].key@ == upper_seq(
                        s[a].name@) by {
                        assert(old_g[a].key@ == upper_seq(old_g[a].name@));
                    }
                    lemma_lookup_at(s, i as int);
                    assert forall|k: Seq<char>| k != key@ implies lookup_global(s, k) == lookup_global(
                        old_g, k) by {
                        if has_key(old_g, k) {
                            let j = key_index(old_g, k);
                            assert(j != i);
                            assert(s[j] == old_g[j]);
                            lemma_lookup_at(old_g, j);
                            lemma_lookup_at(s, j);
                        } else {
                            assert forall|j: int| 0 <= j < s.len() implies s[j].key@ != k by {
                                if j != i {
                                    assert(s[j] == old_g[j]);
                                }
                            }
                        }
                    }
                }
            },
            None => {
                let entry = GlobalEntry { key, name: String::from_str(name), info };
                self.globals.push(entry);
                proof {
                    let s = self.globals@;
                    let n = old_g.len() as int;
                    assert forall|a: int, b: int| 0 <= a < b < s.len() implies #[trigger] s[a].key@
                        != #[trigger] s[b].key@ by {
                        if b < n {
                            assert(old_g[a].key@ != old_g[b].key@);
                        } else {
                            assert(s[a] == old_g[a]);
                            assert(old_g[a].key@ != key@);
                        }
                    }
                    assert forall|a: int| 0 <= a < s.len() implies #[trigger] s[a].key@ == upper_seq(
                        s[a].name@) by {
                        if a < n {
                            assert(s[a] == old_g[a]);
                        }
                    }
                    lemma_lookup_at(s, n);
                    assert forall|k: Seq<char>| k != key@ implies lookup_global(s, k) == lookup_global(
                        old_g, k) by {
                        if has_key(old_g, k) {
                            let j = key_index(old_g, k);
                            assert(s[j] == old_g[j]);
                            lemma_lookup_at(old_g, j);
                            lemma_lookup_at(s, j);
                        } else {
                            assert forall|j: int| 0 <= j < s.len() implies s[j].key@ != k by {
                                if j < n {
                                    assert(s[j] == old_g[j]);
                                }
                            }
                        }
                    }
                }
            },
        }
    }

    /// Define a global label at an address
    pub fn define_label(&mut self, name: &str, addr: u16, file: &str, line: usize) -> (r: AsmResult<()>)
        requires
            old(self).wf(),
            old(self).scope() < usize::MAX,
        ensures
            final(self).wf(),
            r is Err <==> constant_clash(old(self), name@, addr as i64),
            r matches Err(e) ==> e.message@ == "Symbol '"@ + name@ + "' already defined"@,
            r is Ok ==> label_defined(old(self), final(self), name@, addr, file@, line),
            r is Err ==> (forall|k: Seq<char>| final(self).global(k) == old(self).global(k)) && final(self).scope()
                == old(self).scope(),
            old(self).same_but_globals(final(self)),
            old(self).scopes_settled() ==> final(self).scopes_settled(),
    {
        let key = upper_key_of(name);
        let found = self.find_global(&key);
        match found {
            Some(i) => {
                let e = &self.globals[i].info;
                if !e.is_mutable && e.value.is_some() {
                    let same = match e.value {
                        Some(v) => v == addr as i64,
                        None => false,
                    };
                    if !same {
                        return Err(message_with_name("Symbol '", name, "' already defined"));
                    }
                }
            },
            None => {},
        }
        let info = SymbolInfo {
            value: Some(addr as i64),
            expr: None,
            file: String::from_str(file),
            line,
            is_mutable: false,
            is_local: false,
            scope_id: self.current_scope,
            local_index: None,
        };
        self.put_global(name, key, info);
        self.enter_scope(name);
        Ok(())
    }

    /// Define a local label at an address
    pub fn define_local_label(&mut self, name: &str, addr: u16, file: &str, line: usize) -> (r: AsmResult<
        (),
    >)
        requires
            old(self).wf(),
            old(self).local_counter() < usize::MAX,
        ensures
            r is Ok,
            local_defined(old(self), final(self), name@, addr as i64),
    {
        self.push_local(name, Some(addr as i64), file, line);
        Ok(())
    }

    fn push_local(&mut self, name: &str, value: Option<i64>, file: &str, line: usize)
        requires
            old(self).wf(),
            old(self).local_counter() < usize::MAX,
            value is Some,
        ensures
            final(self).wf(),
            final(self).local(upper_seq(name@), old(self).scope()) == value,
            forall|k: Seq<char>, s: usize|
                (k != upper_seq(name@) || s != old(self).scope()) ==> final(self).local(k, s)
                    == old(self).local(k, s),
            forall|k: Seq<char>| final(self).global(k) == old(self).global(k),
            final(self).scope() == old(self).scope(),
            final(self).local_counter() == old(self).local_counter() + 1,
            final(self).local_count() == old(self).local_count() + 1,
            final(self).scope_stack() == old(self).scope_stack(),
            final(self).call_count() == old(self).call_count(),
            forall|k: Seq<char>| final(self).macro_local(k) == old(self).macro_local(k),
            forall|k: Seq<char>| final(self).macro_def(k) == old(self).macro_def(k),
            old(self).scopes_settled() ==> final(self).scopes_settled(),
    {
        let idx = self.local_label_counter;
        self.local_label_counter += 1;
        let info = SymbolInfo {
            value,
            expr: None,
            file: String::from_str(file),
            line,
            is_mutable: false,
            is_local: true,
            scope_id: self.current_scope,
            local_index: Some(idx),
        };
        let key = upper_key_of(name);
        let entry = LocalEntry { key, name: String::from_str(name), scope: self.current_scope, info };
        let ghost old_l = self.locals@;
        self.locals.push(entry);
        proof {
            let s = self.locals@;
            assert(s.drop_last() == old_l);
            assert forall|k: Seq<char>, sc: usize|
                (k != upper_seq(name@) || sc != self.current_scope) implies lookup_local(s, k, sc)
                == lookup_local(old_l, k, sc) by {
                reveal_with_fuel(lookup_local, 1);
            }
            assert forall|a: int| 0 <= a < s.len() implies #[trigger] s[a].key@ == upper_seq(s[a].name@) by {
                if a < old_l.len() {
                    assert(s[a] == old_l[a]);
                }
            }
        }
    }

    /// Define a constant (immutable unless previously declared with .var)
    pub fn define_constant(&mut self, name: &str, value: i64, file: &str, line: usize) -> (r: AsmResult<
        (),
    >)
        requires
            old(self).wf(),
        ensures
            r is Err <==> constant_clash(old(self), name@, value),
            r matches Err(e) ==> e.message@ == "Constant '"@ + name@ + "' already defined with different value"@,
            constant_defined(old(self), final(self), name@, value, file@, line),
    {
        let key = upper_key_of(name);
        let found = self.find_global(&key);
        match found {
            Some(i) => {
                let e = &self.globals[i].info;
                if !e.is_mutable && e.value.is_some() {
                    let same = match e.value {
                        Some(v) => v == value,
                        None => false,
                    };
                    if !same {
                        return Err(
                            message_with_name(
                                "Constant '",
                                name,
                                "' already defined with different value",
                            ),
                        );
                    }
                    return Ok(());
                }
            },
            None => {},
        }
        let info = SymbolInfo {
            value: Some(value),
            expr: None,
            file: String::from_str(file),
            line,
            is_mutable: false,
            is_local: false,
            scope_id: self.current_scope,
            local_index: None,
        };
        self.put_global(name, key, info);
        Ok(())
    }

    /// Define a local constant
    pub fn define_local_constant(&mut self, name: &str, value: i64, file: &str, line: usize) -> (r:
        AsmResult<()>)
        requires
            old(self).wf(),
            old(self).local_counter() < usize::MAX,
        ensures
            r is Ok,
            local_defined(old(self), final(self), name@, value),
    {
        self.push_local(name, Some(value), file, line);
        Ok(())
    }

    /// Define a mutable variable
    pub fn define_variable(&mut self, name: &str, value: i64, file: &str, line: usize) -> (r: AsmResult<
        (),
    >)
        requires
            old(self).wf(),
        ensures
            r is Ok,
            variable_defined(old(self), final(self), name@, value, file@, line),
    {
        let key = upper_key_of(name);
        let info = SymbolInfo {
            value: Some(value),
            expr: None,
            file: String::from_str(file),
            line,
            is_mutable: true,
            is_local: false,
            scope_id: self.current_scope,
            local_index: None,
        };
        self.put_global(name, key, info);
        Ok(())
    }

    /// Update a mutable variable or constant defined with .var
    pub fn update_variable(&mut self, name: &str, value: i64) -> (r: AsmResult<()>)
        requires
            old(self).wf(),
        ensures
            r is Ok <==> is_variable(old(self), name@),
            r matches Err(e) ==> e.message@ == "Cannot reassign immutable symbol '"@ + name@ + "'"@,
            variable_assigned(old(self), final(self), name@, value),
    {
        let key = upper_key_of(name);
        let found = self.find_global(&key);
        match found {
            Some(i) => {
                if self.globals[i].info.is_mutable {
                    let e = &self.globals[i].info;
                    let expr = match &e.expr {
                        Some(x) => Some(x.copy()),
                        None => None,
                    };
                    let info = SymbolInfo {
                        value: Some(value),
                        expr,
                        file: e.file.clone(),
                        line: e.line,
                        is_mutable: true,
                        is_local: e.is_local,
                        scope_id: e.scope_id,
                        local_index: e.local_index,
                    };
                    self.put_global(name, key, info);
                    return Ok(());
                }
            },
            None => {},
        }
        Err(message_with_name("Cannot reassign immutable symbol '", name, "'"))
    }

    /// Set a constant with deferred expression (for first pass forward refs)
    pub fn define_constant_deferred(&mut self, name: &str, expr: Expr, file: &str, line: usize) -> (r:
        AsmResult<()>)
        requires
            old(self).wf(),
        ensures
            r is Ok,
            final(self).global(upper_seq(name@)) matches Some(e) && e.expr == Some(expr),
            constant_deferred(old(self), final(self), name@, expr.spec_view(), file@, line),
    {
        let key = upper_key_of(name);
        let found = self.find_global(&key);
        let is_update = match found {
            Some(i) => self.globals[i].info.is_mutable,
            None => false,
        };
        let info = SymbolInfo {
            value: None,
            expr: Some(expr),
            file: String::from_str(file),
            line,
            is_mutable: is_update,
            is_local: false,
            scope_id: self.current_scope,
            local_index: None,
        };
        self.put_global(name, key, info);
        Ok(())
    }

    /// The value found for `name` in the innermost macro scope that defines it.
    fn resolve_in_macro_scopes(&self, name: &str) -> (r: Option<Option<i64>>)
        ensures
            r == resolve_in_scopes(self.macro_locals@, self.scope_stack(), name@),
    {
        let mut d: usize = self.macro_scope_stack.len();
        let name_chars = chars_of(name);
        assert(self.scope_stack().take(d as int) == self.scope_stack());
        while d > 0
            invariant
                d <= self.macro_scope_stack@.len(),
                name_chars@ == name@,
                resolve_in_scopes(self.macro_locals@, self.scope_stack(), name@) == resolve_in_scopes(
                    self.macro_locals@,
                    self.scope_stack().take(d as int),
                    name@,
                ),
            decreases d,
        {
            let mut key_src = chars_of(self.macro_scope_stack[d - 1].as_str());
            key_src.push('.');
            let mut j: usize = 0;
            let ghost base = key_src@;
            while j < name_chars.len()
                invariant
                    j <= name_chars@.len(),
                    key_src@ == base + name_chars@.take(j as int),
                decreases name_chars@.len() - j,
            {
                key_src.push(name_chars[j]);
                j += 1;
                assert(key_src@ =~= base + name_chars@.take(j as int));
            }
            assert(name_chars@.take(name_chars@.len() as int) == name_chars@);
            assert(key_src@ =~= self.macro_scope_stack@[d - 1]@ + seq!['.'] + name@);
            let key = upper_vec(&key_src);
            let ghost stack_d = self.scope_stack().take(d as int);
            assert(stack_d.last() == self.macro_scope_stack@[d - 1]@);
            assert(key@ == macro_local_key(stack_d.last(), name@));
            assert(stack_d.drop_last() == self.scope_stack().take(d - 1));
            match self.find_macro_local(&key) {
                Some(i) => {
                    return Some(self.macro_locals[i].info.value);
                },
                None => {},
            }
            d -= 1;
        }
        None
    }

    fn find_macro_local(&self, k: &[char]) -> (r: Option<usize>)
        ensures
            r matches Some(i) ==> i < self.macro_locals@.len() && self.macro_local(k@) == Some(
                self.macro_locals@[i as int].info),
            r is None ==> self.macro_local(k@) is None,
    {
        let mut i: usize = self.macro_locals.len();
        assert(self.macro_locals@.take(i as int) == self.macro_locals@);
        while i > 0
            invariant
                i <= self.macro_locals@.len(),
                lookup_macro_local(self.macro_locals@, k@) == lookup_macro_local(
                    self.macro_locals@.take(i as int),
                    k@,
                ),
            decreases i,
        {
            let ghost t = self.macro_locals@.take(i as int);
            assert(t.drop_last() == self.macro_locals@.take(i - 1));
            if chars_eq(&self.macro_locals[i - 1].key, k) {
                return Some(i - 1);
            }
            i -= 1;
        }
        None
    }

    /// Resolve a global symbol value
    pub fn resolve(&self, name: &str) -> (r: Option<i64>)
        requires
            self.wf(),
        ensures
            r == self.spec_resolve(name@),
    {
        match self.resolve_in_macro_scopes(name) {
            Some(v) => { return v; },
            None => {},
        }
        let key = upper_key_of(name);
        match self.find_global(&key) {
            Some(i) => self.globals[i].info.value,
            None => None,
        }
    }

    /// Resolve a local symbol in the current scope
    pub fn resolve_local(&self, name: &str) -> (r: Option<i64>)
        ensures
            r == self.spec_resolve_local(name@),
    {
        let key = upper_key_of(name);
        let mut i: usize = self.locals.len();
        assert(self.locals@.take(i as int) == self.locals@);
        while i > 0
            invariant
                i <= self.locals@.len(),
                key@ == upper_seq(name@),
                lookup_local(self.locals@, key@, self.current_scope) == lookup_local(
                    self.locals@.take(i as int),
                    key@,
                    self.current_scope,
                ),
            decreases i,
        {
            let ghost t = self.locals@.take(i as int);
            assert(t.drop_last() == self.locals@.take(i - 1));
            let e = &self.locals[i - 1];
            if e.scope == self.current_scope && e.info.value.is_some() && chars_eq(&e.key, &key) {
                return e.info.value;
            }
            i -= 1;
        }
        None
    }

    /// Resolve any symbol (local with @ prefix first, then global)
    pub fn resolve_any(&self, name: &str, is_local: bool) -> (r: Option<i64>)
        requires
            self.wf(),
        ensures
            r == if is_local { self.spec_resolve_local(name@) } else { self.spec_resolve(name@) },
    {
        if is_local {
            self.resolve_local(name)
        } else {
            self.resolve(name)
        }
    }

    fn find_macro(&self, k: &[char]) -> (r: Option<usize>)
        requires
            self.wf(),
        ensures
            r matches Some(i) ==> i < self.macros@.len() && self.macro_def(k@) == Some(
                self.macros@[i as int].def),
            r is None ==> self.macro_def(k@) is None,
    {
        let mut i: usize = 0;
        while i < self.macros.len()
            invariant
                i <= self.macros@.len(),
                self.wf(),
                forall|j: int| 0 <= j < i ==> self.macros@[j].key@ != k@,
            decreases self.macros@.len() - i,
        {
            if chars_eq(&self.macros[i].key, k) {
                proof {
                    let s = self.macros@;
                    let c = choose|j: int| 0 <= j < s.len() && s[j].key@ == k@;
                    if c != i as int {
                        if c < i {
                        } else {
                            assert(s[i as int].key@ != s[c].key@);
                        }
                    }
                }
                return Some(i);
            }
            i += 1;
        }
        None
    }

    /// Define a macro
    pub fn define_macro(&mut self, def: MacroDef) -> (r: AsmResult<()>)
        requires
            old(self).wf(),
        ensures
            final(self).wf(),
            ({
                let k = upper_seq(def.name@);
                &&& (r is Err <==> old(self).macro_def(k) is Some)
                &&& r matches Err(e) ==> e.message@ == "Macro '"@ + def.name@ + "' already defined"@
                &&& r is Ok ==> final(self).macro_def(k) == Some(def)
                &&& r is Err ==> final(self).macro_def(k) == old(self).macro_def(k)
                &&& forall|k2: Seq<char>| k2 != k ==> final(self).macro_def(k2) == old(self).macro_def(k2)
            }),
            forall|k: Seq<char>| final(self).global(k) == old(self).global(k),
            forall|k: Seq<char>, s: usize| final(self).local(k, s) == old(self).local(k, s),
            forall|k: Seq<char>| final(self).macro_local(k) == old(self).macro_local(k),
            final(self).scope() == old(self).scope(),
            final(self).scope_stack() == old(self).scope_stack(),
            final(self).call_count() == old(self).call_count(),
            final(self).local_counter() == old(self).local_counter(),
            final(self).local_count() == old(self).local_count(),
            old(self).scopes_settled() == final(self).scopes_settled(),
    {
        let key = upper_key_of(def.name.as_str());
        if self.find_macro(&key).is_some() {
            return Err(message_with_name("Macro '", def.name.as_str(), "' already defined"));
        }
        let ghost old_m = self.macros@;
        self.macros.push(MacroEntry { key, def });
        proof {
            let s = self.macros@;
            let n = old_m.len() as int;
            assert forall|a: int, b: int| 0 <= a < b < s.len() implies #[trigger] s[a].key@
                != #[trigger] s[b].key@ by {
                if b < n {
                    assert(old_m[a].key@ != old_m[b].key@);
                } else {
                    assert(s[a] == old_m[a]);
                }
            }
            assert forall|a: int| 0 <= a < s.len() implies #[trigger] s[a].key@ == upper_seq(
                s[a].def.name@) by {
                if a < n {
                    assert(s[a] == old_m[a]);
                }
            }
            let k = upper_seq(def.name@);
            assert(s[n].key@ == k);
            assert(has_macro_key(s, k));
            let c = choose|j: int| 0 <= j < s.len() && s[j].key@ == k;
            assert(c == n) by {
                if c < n {
                    assert(s[c] == old_m[c]);
                    assert(has_macro_key(old_m, k));
                }
            }
            assert forall|k2: Seq<char>| k2 != k implies lookup_macro(s, k2) == lookup_macro(old_m, k2) by {
                if has_macro_key(old_m, k2) {
                    let j = choose|j: int| 0 <= j < old_m.len() && old_m[j].key@ == k2;
                    assert(s[j] == old_m[j]);
                    let c2 = choose|j: int| 0 <= j < s.len() && s[j].key@ == k2;
                    if c2 != j {
                        if c2 < j {
                            assert(s[c2].key@ != s[j].key@);
                        } else {
                            assert(s[j].key@ != s[c2].key@);
                        }
                    }
                } else {
                    assert forall|j: int| 0 <= j < s.len() implies s[j].key@ != k2 by {
                        if j < n {
                            assert(s[j] == old_m[j]);
                        }
                    }
                }
            }
        }
        Ok(())
    }

    /// Look up a macro definition
    pub fn get_macro(&self, name: &str) -> (r: Option<&MacroDef>)
        requires
            self.wf(),
        ensures
            r matches Some(d) ==> self.macro_def(upper_seq(name@)) == Some(*d),
            r is None ==> self.macro_def(upper_seq(name@)) is None,
    {
        let key = upper_key_of(name);
        match self.find_macro(&key) {
            Some(i) => Some(&self.macros[i].def),
            None => None,
        }
    }

    /// Begin a macro expansion scope
    pub fn begin_macro_expansion(&mut self, macro_name: &str) -> (prefix: String)
        requires
            old(self).wf(),
            old(self).call_count() < usize::MAX,
        ensures
            macro_scope_entered(old(self), final(self), macro_name@, prefix@),
    {
        self.macro_call_count += 1;
        let mut prefix = String::from_str(macro_name);
        push_chars(&mut prefix, &['_']);
        push_chars(&mut prefix, &fmt_dec(self.macro_call_count as u64));
        assert(prefix@ =~= expansion_prefix(macro_name@, self.macro_call_count as nat));
        let ghost old_stack = self.macro_scope_stack@;
        self.macro_scope_stack.push(prefix.clone());
        assert(self.scope_stack() =~= Seq::new(old_stack.len(), |i: int| old_stack[i]@).push(prefix@));
        prefix
    }

    /// End a macro expansion scope
    pub fn end_macro_expansion(&mut self)
        requires
            old(self).wf(),
        ensures
            macro_scope_left(old(self), final(self)),
    {
        let ghost old_stack = self.macro_scope_stack@;
        let _ = self.macro_scope_stack.pop();
        proof {
            if old_stack.len() > 0 {
                assert(self.scope_stack() =~= Seq::new(old_stack.len(), |i: int| old_stack[i]@).drop_last());
            } else {
                assert(self.scope_stack() =~= Seq::new(old_stack.len(), |i: int| old_stack[i]@));
            }
        }
    }

    /// Define a symbol in the current macro scope
    pub fn define_macro_local(&mut self, scope_prefix: &str, name: &str, value: i64, file: &str, line: usize)
        requires
            old(self).wf(),
        ensures
            final(self).wf(),
            macro_local_defined(old(self), final(self), scope_prefix@, name@, value, file@, line),
            forall|k: Seq<char>, s: usize| final(self).local(k, s) == old(self).local(k, s),
            forall|k: Seq<char>| final(self).macro_def(k) == old(self).macro_def(k),
            final(self).scope() == old(self).scope(),
            final(self).call_count() == old(self).call_count(),
            final(self).local_counter() == old(self).local_counter(),
            final(self).local_count() == old(self).local_count(),
            old(self).scopes_settled() == final(self).scopes_settled(),
    {
        let mut key_src = chars_of(scope_prefix);
        key_src.push('.');
        let ghost base = key_src@;
        let name_chars = chars_of(name);
        let mut j: usize = 0;
        while j < name_chars.len()
            invariant
                j <= name_chars@.len(),
                key_src@ == base + name_chars@.take(j as int),
            decreases name_chars@.len() - j,
        {
            key_src.push(name_chars[j]);
            j += 1;
            assert(key_src@ =~= base + name_chars@.take(j as int));
        }
        assert(name_chars@.take(name_chars@.len() as int) == name_chars@);
        assert(key_src@ =~= scope_prefix@ + seq!['.'] + name@);
        let key = upper_vec(&key_src);
        let info = SymbolInfo {
            value: Some(value),
            expr: None,
            file: String::from_str(file),
            line,
            is_mutable: false,
            is_local: false,
            scope_id: 0,
            local_index: None,
        };
        let ghost old_ml = self.macro_locals@;
        self.macro_locals.push(MacroLocalEntry { key, info });
        proof {
            assert(self.macro_locals@.drop_last() == old_ml);
            reveal_with_fuel(lookup_macro_local, 1);
        }
    }

    /// Get all global symbols for debug output
    pub fn all_globals(&self) -> (r: &Vec<GlobalEntry>)
        requires
            self.wf(),
        ensures
            forall|i: int| 0 <= i < r@.len() ==> self.global(#[trigger] r@[i].key@) == Some(r@[i].info),
            forall|i: int| 0 <= i < r@.len() ==> (#[trigger] r@[i]).key@ == upper_seq(r@[i].name@),
            forall|k: Seq<char>| self.global(k) is Some ==> exists|i: int| 0 <= i < r@.len() && r@[i].key@ == k,
            r@ == self.global_entries(),
    {
        proof {
            assert forall|i: int| 0 <= i < self.globals@.len() implies self.global(
                #[trigger] self.globals@[i].key@,
            ) == Some(self.globals@[i].info) by {
                lemma_lookup_at(self.globals@, i);
            }
        }
        &self.globals
    }

    /// Get all local symbols for debug output, in definition order
    pub fn all_locals(&self) -> (r: &Vec<LocalEntry>)
        ensures
            r@.len() == self.local_count(),
            forall|k: Seq<char>, s: usize| self.local(k, s) == lookup_local(r@, k, s),
    {
        &self.locals
    }

    /// Get all macro definitions
    pub fn all_macros(&self) -> (r: &Vec<MacroEntry>)
        requires
            self.wf(),
        ensures
            forall|i: int| 0 <= i < r@.len() ==> self.macro_def(#[trigger] r@[i].key@) == Some(r@[i].def),
            forall|k: Seq<char>| self.macro_def(k) is Some ==> exists|i: int| 0 <= i < r@.len() && r@[i].key@ == k,
    {
        proof {
            let s = self.macros@;
            assert forall|i: int| 0 <= i < s.len() implies self.macro_def(#[trigger] s[i].key@) == Some(
                s[i].def) by {
                let c = choose|j: int| 0 <= j < s.len() && s[j].key@ == s[i].key@;
                if c != i {
                    if c < i {
                        assert(s[c].key@ != s[i].key@);
                    } else {
                        assert(s[i].key@ != s[c].key@);
                    }
                }
            }
        }
        &self.macros
    }

    /// Check if a global symbol exists
    pub fn symbol_exists(&self, name: &str) -> (r: bool)
        requires
            self.wf(),
        ensures
            r == self.global(upper_seq(name@)) is Some,
    {
        let key = upper_key_of(name);
        self.find_global(&key).is_some()
    }

    pub fn is_mutable(&self, name: &str) -> (r: bool)
        requires
            self.wf(),
        ensures
            r == (self.global(upper_seq(name@)) matches Some(e) && e.is_mutable),
    {
        let key = upper_key_of(name);
        match self.find_global(&key) {
            Some(i) => self.globals[i].info.is_mutable,
            None => false,
        }
    }

    /// Reset for pass 2 (keep definitions, reset scope tracking)
    pub fn reset_for_pass2(&mut self)
        requires
            old(self).wf(),
        ensures
            final(self).wf(),
            final(self).scope() == 0,
            final(self).local_counter() == 0,
            forall|k: Seq<char>| final(self).global(k) == old(self).global(k),
            forall|k: Seq<char>, s: usize| final(self).local(k, s) == old(self).local(k, s),
            forall|k: Seq<char>| final(self).macro_local(k) == old(self).macro_local(k),
            forall|k: Seq<char>| final(self).macro_def(k) == old(self).macro_def(k),
            final(self).scope_stack() == old(self).scope_stack(),
            final(self).call_count() == old(self).call_count(),
            final(self).local_count() == old(self).local_count(),
    {
        self.current_scope = 0;
        self.current_global_label = None;
        self.local_label_counter = 0;
    }

    /// The number of local symbols defined since the last reset (for
    /// numbering them).
    pub fn local_label_counter(&self) -> (r: usize)
        ensures
            r == self.local_counter(),
    {
        self.local_label_counter
    }

    /// Get the macro call count (for naming)
    pub fn macro_call_count(&self) -> (r: usize)
        ensures
            r == self.call_count(),
    {
        self.macro_call_count
    }

    /// Reset macro call count for pass 2
    pub fn reset_macro_call_count(&mut self)
        requires
            old(self).wf(),
        ensures
            final(self).wf(),
            final(self).call_count() == 0,
            forall|k: Seq<char>| final(self).global(k) == old(self).global(k),
            forall|k: Seq<char>, s: usize| final(self).local(k, s) == old(self).local(k, s),
            forall|k: Seq<char>| final(self).macro_local(k) == old(self).macro_local(k),
            forall|k: Seq<char>| final(self).macro_def(k) == old(self).macro_def(k),
            final(self).scope_stack() == old(self).scope_stack(),
            final(self).scope() == old(self).scope(),
            final(self).local_counter() == old(self).local_counter(),
            final(self).local_count() == old(self).local_count(),
    {
        self.macro_call_count = 0;
    }
}

proof fn lemma_upper_concat(a: Seq<char>, b: Seq<char>)
    ensures
        upper_seq(a + b) == upper_seq(a) + upper_seq(b),
{
    assert(upper_seq(a + b) =~= upper_seq(a) + upper_seq(b));
}

proof fn lemma_macro_key_case(p: Seq<char>, a: Seq<char>, b: Seq<char>)
    requires
        upper_seq(a) == upper_seq(b),
    ensures
        macro_local_key(p, a) == macro_local_key(p, b),
{
    lemma_upper_concat(p + seq!['.'], a);
    lemma_upper_concat(p + seq!['.'], b);
}

proof fn lemma_scopes_case(ml: Seq<MacroLocalEntry>, stack: Seq<Seq<char>>, a: Seq<char>, b: Seq<char>)
    requires
        upper_seq(a) == upper_seq(b),
    ensures
        resolve_in_scopes(ml, stack, a) == resolve_in_scopes(ml, stack, b),
    decreases stack.len(),
{
    if stack.len() > 0 {
        lemma_macro_key_case(stack.last(), a, b);
        lemma_scopes_case(ml, stack.drop_last(), a, b);
    }
}

/// Names are looked up without regard to ASCII case: two names that agree up
/// to case resolve alike, as globals, as locals and as macros.
pub proof fn law_lookup_ignores_case(st: &SymbolTable, a: Seq<char>, b: Seq<char>)
    requires
        upper_seq(a) == upper_seq(b),
    ensures
        st.spec_resolve(a) == st.spec_resolve(b),
        st.spec_resolve_local(a) == st.spec_resolve_local(b),
        st.macro_def(upper_seq(a)) == st.macro_def(upper_seq(b)),
{
    lemma_scopes_case(st.macro_locals@, st.scope_stack(), a, b);
}

/// Outside macro expansions a name resolves to the value of the global symbol
/// defined under it.
pub proof fn law_resolve_outside_macros(st: &SymbolTable, name: Seq<char>)
    requires
        st.scope_stack().len() == 0,
    ensures
        st.spec_resolve(name) == match st.global(upper_seq(name)) {
            Some(info) => info.value,
            None => None,
        },
{
}

/// Outside macro expansions, a label that was just defined resolves to
/// its address.
pub proof fn law_label_resolves_to_its_address(
    a: &SymbolTable,
    b: &SymbolTable,
    name: Seq<char>,
    addr: u16,
    file: Seq<char>,
    line: usize,
)
    requires
        label_defined(a, b, name, addr, file, line),
        b.scope_stack().len() == 0,
    ensures
        b.spec_resolve(name) == Some(addr as i64),
{
}

/// Outside macro expansions, a constant that was defined without a clash
/// resolves to its value.
pub proof fn law_constant_resolves_to_its_value(
    a: &SymbolTable,
    b: &SymbolTable,
    name: Seq<char>,
    value: i64,
    file: Seq<char>,
    line: usize,
)
    requires
        constant_defined(a, b, name, value, file, line),
        !constant_clash(a, name, value),
        b.scope_stack().len() == 0,
    ensures
        b.spec_resolve(name) == Some(value),
{
}

/// Outside macro expansions, a variable resolves to the value last given
/// to it.
pub proof fn law_variable_resolves_to_its_last_value(a: &SymbolTable, b: &SymbolTable, name: Seq<char>, value: i64)
    requires
        variable_assigned(a, b, name, value),
        is_variable(a, name),
        b.scope_stack().len() == 0,
    ensures
        b.spec_resolve(name) == Some(value),
        is_variable(b, name),
{
}

proof fn lemma_lookup_local_newer_scope(s: Seq<LocalEntry>, k: Seq<char>, scope: usize, bound: usize)
    requires
        forall|i: int| 0 <= i < s.len() ==> #[trigger] s[i].scope <= bound,
        scope > bound,
    ensures
        lookup_local(s, k, scope) is None,
    decreases s.len(),
{
    if s.len() > 0 {
        assert(s.last().scope <= bound);
        lemma_lookup_local_newer_scope(s.drop_last(), k, scope, bound);
    }
}

/// A global label opens a fresh scope: the local symbols defined before it are
/// no longer visible from it.
pub proof fn law_new_scope_hides_locals(before: &SymbolTable, after: &SymbolTable, name: Seq<char>)
    requires
        before.scopes_settled(),
        before.scope() < usize::MAX,
        after.scope() == before.scope() + 1,
        forall|k: Seq<char>, s: usize| after.local(k, s) == before.local(k, s),
    ensures
        after.spec_resolve_local(name) is None,
{
    lemma_lookup_local_newer_scope(before.locals@, upper_seq(name), after.scope(), before.scope());
}

/// `b` is `a` with the global label `name` set to `addr` (defined in `file`
/// at `line`) and a new local scope opened.
pub open spec fn label_defined(a: &SymbolTable, b: &SymbolTable, name: Seq<char>, addr: u16, file: Seq<char>, line: usize) -> bool {
    let k = upper_seq(name);
    &&& b.wf()
    &&& b.global(k) matches Some(e) && e.value == Some(addr as i64) && !e.is_mutable && !e.is_local && e.file@ == file
        && e.line == line && e.scope_id == a.scope() && e.expr is None && e.local_index is None
    &&& b.scope() == a.scope() + 1
    &&& forall|k2: Seq<char>| k2 != k ==> b.global(k2) == a.global(k2)
    &&& a.same_but_globals(b)
    &&& (a.scopes_settled() ==> b.scopes_settled())
}

/// `b` is `a` with the local symbol `name` of the current scope set to `value`.
pub open spec fn local_defined(a: &SymbolTable, b: &SymbolTable, name: Seq<char>, value: i64) -> bool {
    &&& b.wf()
    &&& b.local(upper_seq(name), a.scope()) == Some(value)
    &&& forall|k: Seq<char>, s: usize| (k != upper_seq(name) || s != a.scope()) ==> b.local(k, s) == a.local(k, s)
    &&& forall|k: Seq<char>| b.global(k) == a.global(k)
    &&& b.scope() == a.scope()
    &&& b.local_counter() == a.local_counter() + 1
    &&& b.local_count() == a.local_count() + 1
    &&& b.scope_stack() == a.scope_stack()
    &&& b.call_count() == a.call_count()
    &&& forall|k: Seq<char>| b.macro_local(k) == a.macro_local(k)
    &&& forall|k: Seq<char>| b.macro_def(k) == a.macro_def(k)
    &&& (a.scopes_settled() ==> b.scopes_settled())
}

/// Whether the global `name` of `a` is a constant with a value other than
/// `value`: defining it as `value` then fails.
pub open spec fn constant_clash(a: &SymbolTable, name: Seq<char>, value: i64) -> bool {
    a.global(upper_seq(name)) matches Some(e) && !e.is_mutable && e.value is Some && e.value != Some(value)
}

/// `b` is `a` after `name` was defined as the constant `value` (in `file` at
/// `line`); a constant that already has a value keeps it.
pub open spec fn constant_defined(a: &SymbolTable, b: &SymbolTable, name: Seq<char>, value: i64, file: Seq<char>, line: usize) -> bool {
    let k = upper_seq(name);
    let fixed = match a.global(k) {
        Some(e) => !e.is_mutable && e.value is Some,
        None => false,
    };
    &&& b.wf()
    &&& (fixed ==> b.global(k) == a.global(k))
    &&& (!fixed ==> (b.global(k) matches Some(e) && e.value == Some(value) && !e.is_mutable && !e.is_local && e.file@
        == file && e.line == line && e.expr is None && e.scope_id == a.scope()))
    &&& forall|k2: Seq<char>| k2 != k ==> b.global(k2) == a.global(k2)
    &&& a.same_but_globals(b)
    &&& b.scope() == a.scope()
    &&& a.scopes_settled() == b.scopes_settled()
}

/// Whether `name` is a global variable of `a` (declared with `.var`).
pub open spec fn is_variable(a: &SymbolTable, name: Seq<char>) -> bool {
    a.global(upper_seq(name)) matches Some(e) && e.is_mutable
}

/// `b` is `a` with the variable `name` set to `value`, or, when `name` is no
/// variable, with the same symbols.
pub open spec fn variable_assigned(a: &SymbolTable, b: &SymbolTable, name: Seq<char>, value: i64) -> bool {
    let k = upper_seq(name);
    &&& b.wf()
    &&& (is_variable(a, name) ==> (b.global(k) matches Some(e) && e == (SymbolInfo {
        value: Some(value),
        ..a.global(k).unwrap()
    })))
    &&& (!is_variable(a, name) ==> b.global(k) == a.global(k))
    &&& forall|k2: Seq<char>| k2 != k ==> b.global(k2) == a.global(k2)
    &&& a.same_but_globals(b)
    &&& b.scope() == a.scope()
    &&& a.scopes_settled() == b.scopes_settled()
}

/// `b` is `a` with the new variable `name` set to `value` (declared in
/// `file` at `line`).
pub open spec fn variable_defined(a: &SymbolTable, b: &SymbolTable, name: Seq<char>, value: i64, file: Seq<char>, line: usize) -> bool {
    let k = upper_seq(name);
    &&& b.wf()
    &&& b.global(k) matches Some(e) && e.value == Some(value) && e.is_mutable && !e.is_local && e.file@ == file
        && e.line == line && e.expr is None
    &&& forall|k2: Seq<char>| k2 != k ==> b.global(k2) == a.global(k2)
    &&& a.same_but_globals(b)
    &&& b.scope() == a.scope()
    &&& a.scopes_settled() == b.scopes_settled()
}

/// Whether `e` holds an expression that reads as `x`.
pub open spec fn expr_is(e: Option<crate::expr::Expr>, x: crate::expr::SpecExpr) -> bool {
    match e {
        Some(y) => y.spec_view() == x,
        None => false,
    }
}

/// `b` is `a` with the global constant `name` waiting for the value of
/// `expr` (written in `file` at `line`); a variable stays a variable.
pub open spec fn constant_deferred(
    a: &SymbolTable,
    b: &SymbolTable,
    name: Seq<char>,
    expr: crate::expr::SpecExpr,
    file: Seq<char>,
    line: usize,
) -> bool {
    let k = upper_seq(name);
    &&& b.wf()
    &&& b.global(k) matches Some(e) && e.value is None && expr_is(e.expr, expr) && e.file@ == file && e.line == line
        && e.is_mutable == is_variable(a, name)
    &&& forall|k2: Seq<char>| k2 != k ==> b.global(k2) == a.global(k2)
    &&& a.same_but_globals(b)
    &&& b.scope() == a.scope()
    &&& a.scopes_settled() == b.scopes_settled()
}

/// `b` is `a` inside one more macro expansion, whose scope is `prefix`.
pub open spec fn macro_scope_entered(a: &SymbolTable, b: &SymbolTable, name: Seq<char>, prefix: Seq<char>) -> bool {
    &&& b.wf()
    &&& b.call_count() == a.call_count() + 1
    &&& prefix == expansion_prefix(name, b.call_count() as nat)
    &&& b.scope_stack() == a.scope_stack().push(prefix)
    &&& forall|k: Seq<char>| b.global(k) == a.global(k)
    &&& forall|k: Seq<char>, s: usize| b.local(k, s) == a.local(k, s)
    &&& forall|k: Seq<char>| b.macro_local(k) == a.macro_local(k)
    &&& forall|k: Seq<char>| b.macro_def(k) == a.macro_def(k)
    &&& b.scope() == a.scope()
    &&& b.local_counter() == a.local_counter()
    &&& b.local_count() == a.local_count()
    &&& a.scopes_settled() == b.scopes_settled()
}

/// `b` is `a` with `name` defined as `value` (in `file` at `line`) in the
/// macro scope `prefix`; the other macro-scope symbols, the globals and the
/// active scopes stay.
pub open spec fn macro_local_defined(
    a: &SymbolTable,
    b: &SymbolTable,
    prefix: Seq<char>,
    name: Seq<char>,
    value: i64,
    file: Seq<char>,
    line: usize,
) -> bool {
    &&& b.macro_local(macro_local_key(prefix, name)) matches Some(e) && e.value == Some(value) && e.file@ == file
        && e.line == line
    &&& forall|k: Seq<char>| k != macro_local_key(prefix, name) ==> b.macro_local(k) == a.macro_local(k)
    &&& forall|k: Seq<char>| b.global(k) == a.global(k)
    &&& b.scope_stack() == a.scope_stack()
}

/// `b` is `a` with the innermost macro scope closed.
pub open spec fn macro_scope_left(a: &SymbolTable, b: &SymbolTable) -> bool {
    &&& b.wf()
    &&& b.scope_stack() == if a.scope_stack().len() == 0 {
        a.scope_stack()
    } else {
        a.scope_stack().drop_last()
    }
    &&& forall|k: Seq<char>| b.global(k) == a.global(k)
    &&& forall|k: Seq<char>, s: usize| b.local(k, s) == a.local(k, s)
    &&& forall|k: Seq<char>| b.macro_local(k) == a.macro_local(k)
    &&& forall|k: Seq<char>| b.macro_def(k) == a.macro_def(k)
    &&& b.scope() == a.scope()
    &&& b.call_count() == a.call_count()
    &&& b.local_counter() == a.local_counter()
    &&& b.local_count() == a.local_count()
    &&& a.scopes_settled() == b.scopes_settled()
}

/// The value a symbol entry holds, if any.
pub open spec fn value_of(e: Option<SymbolInfo>) -> Option<i64> {
    match e {
        Some(info) => info.value,
        None => None,
    }
}

/// `u` keeps every value that a global of `t` has, and the macro scopes of
/// `t`.
pub open spec fn values_kept(t: &SymbolTable, u: &SymbolTable) -> bool {
    &&& forall|k: Seq<char>| #[trigger] u.macro_local(k) == t.macro_local(k)
    &&& u.scope_stack() == t.scope_stack()
    &&& forall|k: Seq<char>| value_of(t.global(k)) is Some ==> #[trigger] value_of(u.global(k)) == value_of(t.global(k))
}

proof fn lemma_scopes_kept(t: &SymbolTable, u: &SymbolTable, stack: Seq<Seq<char>>, name: Seq<char>)
    requires
        forall|k: Seq<char>| #[trigger] u.macro_local(k) == t.macro_local(k),
    ensures
        resolve_in_scopes(u.macro_locals@, stack, name) == resolve_in_scopes(t.macro_locals@, stack, name),
    decreases stack.len(),
{
    if stack.len() > 0 {
        assert(u.macro_local(macro_local_key(stack.last(), name)) == t.macro_local(macro_local_key(stack.last(), name)));
        lemma_scopes_kept(t, u, stack.drop_last(), name);
    }
}

/// A name that has a value in `t` has the same value in a table that keeps
/// `t`'s values.
pub proof fn lemma_resolve_kept(t: &SymbolTable, u: &SymbolTable, name: Seq<char>)
    requires
        values_kept(t, u),
        t.spec_resolve(name) is Some,
    ensures
        u.spec_resolve(name) == t.spec_resolve(name),
{
    lemma_scopes_kept(t, u, t.scope_stack(), name);
    assert(value_of(u.global(upper_seq(name))) == value_of(t.global(upper_seq(name))) || value_of(t.global(upper_seq(name))) is None);
}

/// `b` is `a` as pass 2 starts from it: scope numbering and macro call
/// counting start again; the symbols stay.
pub open spec fn reset_for_second_pass(a: &SymbolTable, b: &SymbolTable) -> bool {
    &&& b.wf()
    &&& b.scope() == 0
    &&& b.local_counter() == 0
    &&& b.call_count() == 0
    &&& forall|k: Seq<char>| b.global(k) == a.global(k)
    &&& forall|k: Seq<char>, s: usize| b.local(k, s) == a.local(k, s)
    &&& forall|k: Seq<char>| b.macro_local(k) == a.macro_local(k)
    &&& forall|k: Seq<char>| b.macro_def(k) == a.macro_def(k)
    &&& b.scope_stack() == a.scope_stack()
    &&& b.local_count() == a.local_count()
}

/// The ASCII upper-case characters of `name`: the key names are compared by.
pub fn upper_key_of(name: &str) -> (r: Vec<char>)
    ensures
        r@ == upper_seq(name@),
{
    let v = chars_of(name);
    upper_vec(&v)
}

/// An error whose message is `before` + `name` + `after`.
pub fn message_with_name(before: &str, name: &str, after: &str) -> (e: AsmError)
    ensures
        e.message@ == before@ + name@ + after@,
        e.location is None,
        e.source_line is None,
{
    let mut m = String::from_str(before);
    push_chars(&mut m, &chars_of(name));
    push_chars(&mut m, &chars_of(after));
    AsmError { location: None, message: m, source_line: None }
}

/// Resolution of `name` through the active macro scopes of `st`.
pub open spec fn resolve_in_scopes_of(st: &SymbolTable, name: Seq<char>) -> Option<Option<i64>> {
    resolve_in_scopes_spec(st, name)
}

pub closed spec fn resolve_in_scopes_spec(st: &SymbolTable, name: Seq<char>) -> Option<Option<i64>> {
    resolve_in_scopes(st.macro_locals@, st.scope_stack(), name)
}

/// Resolution of `name` through the macro scopes `stack` of `st`, innermost
/// (last) first: `Some(v)` from the first scope that defines the name.
pub open spec fn scoped_value(st: &SymbolTable, stack: Seq<Seq<char>>, name: Seq<char>) -> Option<Option<i64>>
    decreases stack.len(),
{
    if stack.len() == 0 {
        None
    } else {
        match st.macro_local(macro_local_key(stack.last(), name)) {
            Some(info) => Some(info.value),
            None => scoped_value(st, stack.drop_last(), name),
        }
    }
}

proof fn lemma_scoped_value(st: &SymbolTable, stack: Seq<Seq<char>>, name: Seq<char>)
    ensures
        resolve_in_scopes(st.macro_locals@, stack, name) == scoped_value(st, stack, name),
    decreases stack.len(),
{
    if stack.len() > 0 {
        lemma_scoped_value(st, stack.drop_last(), name);
    }
}

/// Inside macro expansions a name is looked up in the active macro scopes,
/// innermost first, before the global symbols.
pub proof fn law_macro_scopes_resolve_innermost_first(st: &SymbolTable, name: Seq<char>)
    ensures
        resolve_in_scopes_of(st, name) == scoped_value(st, st.scope_stack(), name),
        st.spec_resolve(name) == match scoped_value(st, st.scope_stack(), name) {
            Some(v) => v,
            None => value_of(st.global(upper_seq(name))),
        },
{
    lemma_scoped_value(st, st.scope_stack(), name);
}

proof fn lemma_scoped_same(t: &SymbolTable, u: &SymbolTable, stack: Seq<Seq<char>>, name: Seq<char>, key: Seq<char>)
    requires
        forall|k: Seq<char>| k != key ==> u.macro_local(k) == t.macro_local(k),
        forall|i: int| 0 <= i < stack.len() ==> macro_local_key(#[trigger] stack[i], name) != key,
    ensures
        scoped_value(u, stack, name) == scoped_value(t, stack, name),
    decreases stack.len(),
{
    if stack.len() > 0 {
        assert(stack.last() == stack[stack.len() - 1]);
        assert forall|i: int| 0 <= i < stack.drop_last().len() implies macro_local_key(
            #[trigger] stack.drop_last()[i],
            name,
        ) != key by {
            assert(stack.drop_last()[i] == stack[i]);
        }
        lemma_scoped_same(t, u, stack.drop_last(), name, key);
    }
}

/// Inside a macro expansion a symbol defined in its scope resolves to its
/// value; once the expansion's scope is left, the name resolves again as it
/// did before the expansion began (where no outer scope shares the key the
/// expansion's scope gives the name).
pub proof fn law_leaving_a_macro_scope_restores_resolution(
    a: &SymbolTable,
    b: &SymbolTable,
    c: &SymbolTable,
    d: &SymbolTable,
    macro_name: Seq<char>,
    prefix: Seq<char>,
    name: Seq<char>,
    value: i64,
    file: Seq<char>,
    line: usize,
)
    requires
        macro_scope_entered(a, b, macro_name, prefix),
        macro_local_defined(b, c, prefix, name, value, file, line),
        macro_scope_left(c, d),
        forall|i: int|
            0 <= i < a.scope_stack().len() ==> macro_local_key(#[trigger] a.scope_stack()[i], name) != macro_local_key(
                prefix,
                name,
            ),
    ensures
        c.spec_resolve(name) == Some(value),
        d.spec_resolve(name) == a.spec_resolve(name),
{
    lemma_scoped_value(c, c.scope_stack(), name);
    assert(c.scope_stack().last() == prefix);
    assert(d.scope_stack() == a.scope_stack()) by {
        assert(a.scope_stack().push(prefix).drop_last() =~= a.scope_stack());
    }
    lemma_scoped_value(d, d.scope_stack(), name);
    lemma_scoped_value(a, a.scope_stack(), name);
    lemma_scoped_same(a, d, a.scope_stack(), name, macro_local_key(prefix, name));
}

/// A symbol defined in the innermost macro scope resolves to its value,
/// whatever the global symbols hold.
pub proof fn law_macro_local_resolves_to_its_value(st: &SymbolTable, name: Seq<char>, value: i64)
    requires
        st.scope_stack().len() > 0,
        st.macro_local(macro_local_key(st.scope_stack().last(), name)) matches Some(e) && e.value == Some(value),
    ensures
        st.spec_resolve(name) == Some(value),
{
    lemma_scoped_value(st, st.scope_stack(), name);
}

} // verus!
