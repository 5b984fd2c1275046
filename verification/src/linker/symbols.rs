//! Dynamic symbol tables and the global symbol registry.

use vstd::prelude::*;
use crate::keyed::StrMap;
use crate::linker::elf::{Elf64Sym, STB_GLOBAL, STB_WEAK, spec_sym};
use crate::text::{decode_lossy, utf8_lossy};

verus! {

/// A resolved symbol.
#[derive(Debug, Clone)]
pub struct Symbol {
    pub name: String,
    pub address: usize,
    pub size: usize,
    pub binding: u8,
    pub sym_type: u8,
}

/// A symbol as plain values.
pub struct SymbolView {
    pub name: Seq<char>,
    pub address: usize,
    pub size: usize,
    pub binding: u8,
    pub sym_type: u8,
}

impl View for Symbol {
    type V = SymbolView;

    open spec fn view(&self) -> SymbolView {
        SymbolView { name: self.name@, address: self.address, size: self.size, binding: self.binding, sym_type: self.sym_type }
    }
}

/// The address of a symbol.
pub open spec fn symbol_address(s: SymbolView) -> usize {
    s.address
}

/// A symbol other libraries can bind to: named, global or weak.
pub open spec fn exported(s: SymbolView) -> bool {
    s.name.len() > 0 && (s.binding == STB_GLOBAL || s.binding == STB_WEAK)
}

impl Symbol {
    pub fn new(name: &str, address: usize, size: usize, binding: u8, sym_type: u8) -> (r: Symbol)
        ensures
            r@ == (SymbolView { name: name@, address, size, binding, sym_type }),
    {
        Symbol { name: name.to_string(), address, size, binding, sym_type }
    }

    pub fn is_global(&self) -> (r: bool)
        ensures
            r == (self.binding == STB_GLOBAL),
    {
        self.binding == STB_GLOBAL
    }

    pub fn is_weak(&self) -> (r: bool)
        ensures
            r == (self.binding == STB_WEAK),
    {
        self.binding == STB_WEAK
    }
}

/// The bytes of the NUL-terminated string at `offset` (up to the end of the table when it has
/// no NUL).
pub open spec fn cstr_bytes(tab: Seq<u8>, offset: int) -> Seq<u8> {
    if offset >= tab.len() {
        Seq::empty()
    } else {
        tab.subrange(offset, cstr_end(tab, offset))
    }
}

/// Where the string at `offset` ends: its NUL, or the end of the table.
pub open spec fn cstr_end(tab: Seq<u8>, offset: int) -> int
    decreases tab.len() - offset,
{
    if offset >= tab.len() || offset < 0 {
        tab.len() as int
    } else if tab[offset] == 0 {
        offset
    } else {
        cstr_end(tab, offset + 1)
    }
}

/// The symbol the table entry at `i` becomes.
pub open spec fn table_symbol(symtab: Seq<u8>, strtab: Seq<u8>, base: usize, i: int) -> SymbolView {
    let s = spec_sym(symtab, 24 * i);
    SymbolView {
        name: if s.st_name as int >= strtab.len() { Seq::empty() } else { utf8_lossy(cstr_bytes(strtab, s.st_name as int)) },
        address: if s.st_value != 0 { wrap_usize(base + (s.st_value as usize)) } else { 0 },
        size: s.st_size as usize,
        binding: s.st_info / 16,
        sym_type: s.st_info % 16,
    }
}

/// The sum of two `usize` values, wrapped around the `usize` range.
pub open spec fn wrap_usize(x: int) -> usize {
    if x > usize::MAX { (x - (usize::MAX + 1)) as usize } else { x as usize }
}

/// An all-zero entry past the first ends the table.
pub open spec fn is_terminator(symtab: Seq<u8>, i: int) -> bool {
    let s = spec_sym(symtab, 24 * i);
    i > 0 && s.st_name == 0 && s.st_value == 0 && s.st_size == 0 && s.st_info == 0
}

/// The number of entries read: up to the first terminator, or all whole entries.
pub open spec fn table_len(symtab: Seq<u8>, i: int) -> int
    decreases symtab.len() / 24 - i,
{
    if i < 0 || i >= symtab.len() / 24 || is_terminator(symtab, i) { i } else { table_len(symtab, i + 1) }
}

/// The exported symbol with name `name` that was read last, if any.
pub open spec fn last_exported(syms: Seq<SymbolView>, name: Seq<char>) -> Option<int>
    decreases syms.len(),
{
    if syms.len() == 0 {
        None
    } else if exported(syms.last()) && syms.last().name == name {
        Some(syms.len() - 1)
    } else {
        last_exported(syms.drop_last(), name)
    }
}

/// A parsed dynamic symbol table.
#[derive(Debug, Clone)]
pub struct DynamicSymbolTable {
    symbols: Vec<Symbol>,
}

impl DynamicSymbolTable {
    /// The symbols, in table order.
    pub closed spec fn syms(&self) -> Seq<SymbolView> {
        self.symbols@.map_values(|s: Symbol| s@)
    }

    /// Reads the 24-byte entries of `symtab`, naming them from `strtab` and relocating defined
    /// values by `load_base` (wrapping around the address space), up to the first all-zero
    /// entry past the first.
    pub fn parse(symtab_data: &[u8], strtab_data: &[u8], load_base: usize) -> (r: DynamicSymbolTable)
        ensures
            r.syms().len() == table_len(symtab_data@, 0),
            forall|i: int| 0 <= i < r.syms().len() ==> #[trigger] r.syms()[i] == table_symbol(symtab_data@, strtab_data@, load_base, i),
    {
        let slen = symtab_data.len();
        let count = slen / 24;
        let mut symbols: Vec<Symbol> = Vec::new();
        let mut i: usize = 0;
        let mut stop = false;
        while i < count && !stop
            invariant
                0 <= i <= count,
                slen == symtab_data@.len(),
                count == symtab_data@.len() / 24,
                table_len(symtab_data@, 0) == table_len(symtab_data@, i as int),
                stop ==> i < count && is_terminator(symtab_data@, i as int),
                symbols@.len() == i,
                forall|j: int| 0 <= j < i ==> #[trigger] symbols@[j]@ == table_symbol(symtab_data@, strtab_data@, load_base, j),
            decreases 2 * (count - i) + (if stop { 0int } else { 1int }),
        {
            assert(i * 24 + 24 <= slen) by (nonlinear_arith)
                requires
                    i < count,
                    count == slen / 24,
            ;
            let start = i * 24;
            let sym = match Elf64Sym::parse(&symtab_data[start..start + 24]) {
                Ok(s) => s,
                Err(_) => {
                    proof {
                        assert(false);
                    }
                    return DynamicSymbolTable { symbols };
                },
            };
            proof {
                let sl = symtab_data@.subrange(start as int, start + 24);
                assert forall|k: int| 0 <= k < 24 implies sl[k] == symtab_data@[start + k] by {}
                assert(sym == spec_sym(symtab_data@, 24 * i));
            }
            if i > 0 && sym.st_name == 0 && sym.st_value == 0 && sym.st_size == 0 && sym.st_info == 0 {
                stop = true;
            } else {
                let name = Self::extract_string(strtab_data, sym.st_name as usize);
                let address = if sym.st_value != 0 { load_base.wrapping_add(#[verifier::truncate] (sym.st_value as usize)) } else { 0 };
                symbols.push(Symbol {
                    name,
                    address,
                    size: #[verifier::truncate] (sym.st_size as usize),
                    binding: sym.binding(),
                    sym_type: sym.sym_type(),
                });
                i = i + 1;
            }
        }
        let r = DynamicSymbolTable { symbols };
        assert(r.syms().len() == table_len(symtab_data@, 0));
        r
    }

    /// The exported symbol named `name`; the last such entry when several share the name.
    pub fn lookup(&self, name: &str) -> (r: Option<&Symbol>)
        ensures
            match last_exported(self.syms(), name@) {
                Some(i) => r matches Some(s) && s@ == self.syms()[i],
                None => r is None,
            },
    {
        let mut i = self.symbols.len();
        assert(self.syms().subrange(0, i as int) =~= self.syms());
        while i > 0
            invariant
                0 <= i <= self.symbols@.len(),
                last_exported(self.syms(), name@) == last_exported(self.syms().subrange(0, i as int), name@),
            decreases i,
        {
            let s = &self.symbols[i - 1];
            proof {
                assert(self.syms().subrange(0, i as int).last() == s@);
                assert(self.syms().subrange(0, i as int).drop_last() =~= self.syms().subrange(0, i - 1));
            }
            let named = crate::text::str_eq(s.name.as_str(), name);
            if !s.name.as_str().is_empty() && (s.is_global() || s.is_weak()) && named {
                return Some(s);
            }
            i = i - 1;
        }
        None
    }

    /// The symbol at table index `index`.
    pub fn get(&self, index: usize) -> (r: Option<&Symbol>)
        ensures
            index < self.syms().len() ==> (r matches Some(s) && s@ == self.syms()[index as int]),
            index >= self.syms().len() ==> r is None,
    {
        if index < self.symbols.len() {
            Some(&self.symbols[index])
        } else {
            None
        }
    }

    /// The string at `offset` of a string table, decoded lossily; empty past the table's end.
    pub fn extract_string(strtab: &[u8], offset: usize) -> (r: String)
        ensures
            r@ == (if offset >= strtab@.len() { Seq::empty() } else { utf8_lossy(cstr_bytes(strtab@, offset as int)) }),
    {
        if offset >= strtab.len() {
            return String::new();
        }
        let mut end = offset;
        while end < strtab.len() && strtab[end] != 0
            invariant
                offset <= end <= strtab@.len(),
                cstr_end(strtab@, offset as int) == cstr_end(strtab@, end as int),
            decreases strtab@.len() - end,
        {
            end = end + 1;
        }
        decode_lossy(&strtab[offset..end])
    }
}

/// The registry of symbols that guest code can bind to: host shims and exports of loaded
/// libraries.
#[derive(Debug)]
pub struct SymbolRegistry {
    symbols: StrMap<usize>,
}

impl SymbolRegistry {
    pub closed spec fn wf(&self) -> bool {
        self.symbols.wf()
    }

    /// The registered names and their addresses.
    pub closed spec fn view(&self) -> Map<Seq<char>, usize> {
        self.symbols.view()
    }

    pub fn new() -> (r: SymbolRegistry)
        ensures
            r.wf(),
            r.view() == Map::<Seq<char>, usize>::empty(),
    {
        SymbolRegistry { symbols: StrMap::new() }
    }

    /// Registers `name` at `address`, replacing an earlier registration.
    pub fn register(&mut self, name: &str, address: usize)
        requires
            old(self).wf(),
        ensures
            final(self).wf(),
            final(self).view() == old(self).view().insert(name@, address),
    {
        self.symbols.insert(name.to_string(), address);
    }

    /// The address registered for `name`.
    pub fn resolve(&self, name: &str) -> (r: Option<usize>)
        requires
            self.wf(),
        ensures
            r == (if self.view().contains_key(name@) { Some(self.view()[name@]) } else { None::<usize> }),
    {
        match self.symbols.get(name) {
            Some(a) => Some(*a),
            None => None,
        }
    }

    /// Registers every exported, defined symbol of a table, in table order.
    pub fn register_symbol_table(&mut self, symtab: &DynamicSymbolTable)
        requires
            old(self).wf(),
        ensures
            final(self).wf(),
            final(self).view() == registered(old(self).view(), symtab.syms(), symtab.syms().len() as int),
    {
        let n = symtab.symbols.len();
        let mut i: usize = 0;
        while i < n
            invariant
                0 <= i <= n,
                n == symtab.syms().len(),
                self.wf(),
                self.view() == registered(old(self).view(), symtab.syms(), i as int),
            decreases n - i,
        {
            let sym = &symtab.symbols[i];
            assert(symtab.syms()[i as int] == sym@);
            if !sym.name.as_str().is_empty() && sym.address != 0 && (sym.is_global() || sym.is_weak()) {
                self.symbols.insert(sym.name.clone(), sym.address);
            }
            i = i + 1;
        }
    }

    /// The number of registered names.
    pub fn count(&self) -> (r: usize)
        requires
            self.wf(),
        ensures
            r == self.view().dom().len(),
    {
        self.symbols.len()
    }
}

/// The registry after adding the exported, defined symbols `0..k` of a table.
pub open spec fn registered(m: Map<Seq<char>, usize>, syms: Seq<SymbolView>, k: int) -> Map<Seq<char>, usize>
    decreases k,
{
    if k <= 0 || k > syms.len() {
        m
    } else {
        let prev = registered(m, syms, k - 1);
        let s = syms[k - 1];
        if exported(s) && s.address != 0 { prev.insert(s.name, s.address) } else { prev }
    }
}

/// What a registration gives back: resolving a name right after registering it yields the
/// address it was registered at, and every other name keeps its address.
pub proof fn lemma_register_then_resolve(m: Map<Seq<char>, usize>, name: Seq<char>, address: usize, other: Seq<char>)
    requires
        other != name,
    ensures
        m.insert(name, address).contains_key(name),
        m.insert(name, address)[name] == address,
        m.insert(name, address).contains_key(other) == m.contains_key(other),
        m.contains_key(other) ==> m.insert(name, address)[other] == m[other],
{
}

} // verus!
