//! The symbol table: names bound to addresses.

use vstd::hash_map::StringHashMap;
use vstd::prelude::*;

verus! {

/// The address that the first declared variable gets.
pub const FIRST_VARIABLE_ADDRESS: u16 = 16;

/// The number of addresses: a variable can be declared while the next free
/// address is below it.
pub const ADDRESS_SPACE: u32 = 0x1_0000;

/// The mathematical value of a symbol table.
pub struct Symbols {
    /// The address of every bound name.
    pub bindings: Map<Seq<char>, u16>,
    /// The address that the next declared variable gets.
    pub next: nat,
}

impl Symbols {
    /// The address that `name` is bound to, if it is bound.
    pub open spec fn lookup(self, name: Seq<char>) -> Option<u16> {
        if self.bindings.contains_key(name) {
            Some(self.bindings[name])
        } else {
            None
        }
    }

    /// Whether declaring `name` needs no address or can still get one.
    pub open spec fn can_declare(self, name: Seq<char>) -> bool {
        self.bindings.contains_key(name) || self.next < ADDRESS_SPACE
    }

    /// The table after `name` was declared as a variable: a bound name keeps its
    /// address, a new one gets the next free address.
    pub open spec fn declare(self, name: Seq<char>) -> Symbols
        recommends
            self.can_declare(name),
    {
        if self.bindings.contains_key(name) {
            self
        } else {
            Symbols { bindings: self.bindings.insert(name, self.next as u16), next: self.next + 1 }
        }
    }

    /// The table after `name` was bound to `address`, whatever it was bound to before.
    pub open spec fn bind(self, name: Seq<char>, address: u16) -> Symbols {
        Symbols { bindings: self.bindings.insert(name, address), next: self.next }
    }

    /// The table with no name bound, in which the first variable is still to be declared.
    pub open spec fn empty() -> Symbols {
        Symbols { bindings: Map::empty(), next: FIRST_VARIABLE_ADDRESS as nat }
    }

    /// The table after the names that the machine defines were bound: the
    /// pointers of the stack and of the memory segments, the registers, and the
    /// two devices mapped into memory.
    pub open spec fn with_defaults(self) -> Symbols {
        self.bind("SP"@, 0)
            .bind("LCL"@, 1)
            .bind("ARG"@, 2)
            .bind("THIS"@, 3)
            .bind("THAT"@, 4)
            .bind("R0"@, 0)
            .bind("R1"@, 1)
            .bind("R2"@, 2)
            .bind("R3"@, 3)
            .bind("R4"@, 4)
            .bind("R5"@, 5)
            .bind("R6"@, 6)
            .bind("R7"@, 7)
            .bind("R8"@, 8)
            .bind("R9"@, 9)
            .bind("R10"@, 10)
            .bind("R11"@, 11)
            .bind("R12"@, 12)
            .bind("R13"@, 13)
            .bind("R14"@, 14)
            .bind("R15"@, 15)
            .bind("SCREEN"@, 16384)
            .bind("KBD"@, 24576)
    }

    /// The table that every parse starts from.
    pub open spec fn predefined() -> Symbols {
        Symbols::empty().with_defaults()
    }
}

/// Whether `name` is one of the names that the machine defines.
pub open spec fn is_predefined_name(name: Seq<char>) -> bool {
    ||| name == "SP"@
    ||| name == "LCL"@
    ||| name == "ARG"@
    ||| name == "THIS"@
    ||| name == "THAT"@
    ||| name == "R0"@
    ||| name == "R1"@
    ||| name == "R2"@
    ||| name == "R3"@
    ||| name == "R4"@
    ||| name == "R5"@
    ||| name == "R6"@
    ||| name == "R7"@
    ||| name == "R8"@
    ||| name == "R9"@
    ||| name == "R10"@
    ||| name == "R11"@
    ||| name == "R12"@
    ||| name == "R13"@
    ||| name == "R14"@
    ||| name == "R15"@
    ||| name == "SCREEN"@
    ||| name == "KBD"@
}

/// What a fresh table holds: each name that the machine defines is bound to
/// its fixed address, no other name is bound, and the first variable gets the
/// address 16.
///
/// The proof spells the names out letter by letter: that is what tells two of
/// them apart.
pub proof fn lemma_predefined_bindings()
    ensures
        Symbols::predefined().lookup("SP"@) == Some(0u16),
        Symbols::predefined().lookup("LCL"@) == Some(1u16),
        Symbols::predefined().lookup("ARG"@) == Some(2u16),
        Symbols::predefined().lookup("THIS"@) == Some(3u16),
        Symbols::predefined().lookup("THAT"@) == Some(4u16),
        Symbols::predefined().lookup("R0"@) == Some(0u16),
        Symbols::predefined().lookup("R1"@) == Some(1u16),
        Symbols::predefined().lookup("R2"@) == Some(2u16),
        Symbols::predefined().lookup("R3"@) == Some(3u16),
        Symbols::predefined().lookup("R4"@) == Some(4u16),
        Symbols::predefined().lookup("R5"@) == Some(5u16),
        Symbols::predefined().lookup("R6"@) == Some(6u16),
        Symbols::predefined().lookup("R7"@) == Some(7u16),
        Symbols::predefined().lookup("R8"@) == Some(8u16),
        Symbols::predefined().lookup("R9"@) == Some(9u16),
        Symbols::predefined().lookup("R10"@) == Some(10u16),
        Symbols::predefined().lookup("R11"@) == Some(11u16),
        Symbols::predefined().lookup("R12"@) == Some(12u16),
        Symbols::predefined().lookup("R13"@) == Some(13u16),
        Symbols::predefined().lookup("R14"@) == Some(14u16),
        Symbols::predefined().lookup("R15"@) == Some(15u16),
        Symbols::predefined().lookup("SCREEN"@) == Some(16384u16),
        Symbols::predefined().lookup("KBD"@) == Some(24576u16),
        Symbols::predefined().next == FIRST_VARIABLE_ADDRESS,
        forall|name: Seq<char>| #[trigger]
            Symbols::predefined().bindings.contains_key(name) ==> is_predefined_name(name),
{
    reveal_strlit("SP");
    assert("SP"@.len() == 2 && "SP"@[0] == 'S' && "SP"@[1] == 'P');
    reveal_strlit("LCL");
    assert("LCL"@.len() == 3 && "LCL"@[0] == 'L' && "LCL"@[1] == 'C' && "LCL"@[2] == 'L');
    reveal_strlit("ARG");
    assert("ARG"@.len() == 3 && "ARG"@[0] == 'A' && "ARG"@[1] == 'R' && "ARG"@[2] == 'G');
    reveal_strlit("THIS");
    assert("THIS"@.len() == 4 && "THIS"@[0] == 'T' && "THIS"@[1] == 'H' && "THIS"@[2] == 'I'
        && "THIS"@[3] == 'S');
    reveal_strlit("THAT");
    assert("THAT"@.len() == 4 && "THAT"@[0] == 'T' && "THAT"@[1] == 'H' && "THAT"@[2] == 'A'
        && "THAT"@[3] == 'T');
    reveal_strlit("R0");
    assert("R0"@.len() == 2 && "R0"@[0] == 'R' && "R0"@[1] == '0');
    reveal_strlit("R1");
    assert("R1"@.len() == 2 && "R1"@[0] == 'R' && "R1"@[1] == '1');
    reveal_strlit("R2");
    assert("R2"@.len() == 2 && "R2"@[0] == 'R' && "R2"@[1] == '2');
    reveal_strlit("R3");
    assert("R3"@.len() == 2 && "R3"@[0] == 'R' && "R3"@[1] == '3');
    reveal_strlit("R4");
    assert("R4"@.len() == 2 && "R4"@[0] == 'R' && "R4"@[1] == '4');
    reveal_strlit("R5");
    assert("R5"@.len() == 2 && "R5"@[0] == 'R' && "R5"@[1] == '5');
    reveal_strlit("R6");
    assert("R6"@.len() == 2 && "R6"@[0] == 'R' && "R6"@[1] == '6');
    reveal_strlit("R7");
    assert("R7"@.len() == 2 && "R7"@[0] == 'R' && "R7"@[1] == '7');
    reveal_strlit("R8");
    assert("R8"@.len() == 2 && "R8"@[0] == 'R' && "R8"@[1] == '8');
    reveal_strlit("R9");
    assert("R9"@.len() == 2 && "R9"@[0] == 'R' && "R9"@[1] == '9');
    reveal_strlit("R10");
    assert("R10"@.len() == 3 && "R10"@[0] == 'R' && "R10"@[1] == '1' && "R10"@[2] == '0');
    reveal_strlit("R11");
    assert("R11"@.len() == 3 && "R11"@[0] == 'R' && "R11"@[1] == '1' && "R11"@[2] == '1');
    reveal_strlit("R12");
    assert("R12"@.len() == 3 && "R12"@[0] == 'R' && "R12"@[1] == '1' && "R12"@[2] == '2');
    reveal_strlit("R13");
    assert("R13"@.len() == 3 && "R13"@[0] == 'R' && "R13"@[1] == '1' && "R13"@[2] == '3');
    reveal_strlit("R14");
    assert("R14"@.len() == 3 && "R14"@[0] == 'R' && "R14"@[1] == '1' && "R14"@[2] == '4');
    reveal_strlit("R15");
    assert("R15"@.len() == 3 && "R15"@[0] == 'R' && "R15"@[1] == '1' && "R15"@[2] == '5');
    reveal_strlit("SCREEN");
    assert("SCREEN"@.len() == 6 && "SCREEN"@[0] == 'S' && "SCREEN"@[1] == 'C'
        && "SCREEN"@[2] == 'R' && "SCREEN"@[3] == 'E' && "SCREEN"@[4] == 'E'
        && "SCREEN"@[5] == 'N');
    reveal_strlit("KBD");
    assert("KBD"@.len() == 3 && "KBD"@[0] == 'K' && "KBD"@[1] == 'B' && "KBD"@[2] == 'D');
}

/// A variable gets the address that is free when its name first appears: a
/// name that is not bound yet is bound to the next free address, which then
/// moves up by one, and every other name stays as it is.
pub proof fn lemma_declare_new(symbols: Symbols, name: Seq<char>, other: Seq<char>)
    requires
        symbols.lookup(name).is_none(),
        symbols.next < ADDRESS_SPACE,
        other != name,
    ensures
        symbols.declare(name).lookup(name) == Some(symbols.next as u16),
        symbols.declare(name).next == symbols.next + 1,
        symbols.declare(name).lookup(other) == symbols.lookup(other),
{
}

/// Declaring a name that is bound, as a variable or as a label, changes nothing.
pub proof fn lemma_declare_again(symbols: Symbols, name: Seq<char>)
    requires
        symbols.lookup(name).is_some(),
    ensures
        symbols.can_declare(name),
        symbols.declare(name) == symbols,
{
}

/// A binding replaces what the name was bound to and touches nothing else.
pub proof fn lemma_bind_overrides(
    symbols: Symbols,
    name: Seq<char>,
    address: u16,
    other: Seq<char>,
)
    requires
        other != name,
    ensures
        symbols.bind(name, address).lookup(name) == Some(address),
        symbols.bind(name, address).lookup(other) == symbols.lookup(other),
        symbols.bind(name, address).next == symbols.next,
{
}

/// Names bound to addresses, and the address of the next variable.
pub struct SymTable {
    entries: StringHashMap<u16>,
    address: u32,
}

impl View for SymTable {
    type V = Symbols;

    closed spec fn view(&self) -> Symbols {
        Symbols { bindings: self.entries@, next: self.address as nat }
    }
}

impl SymTable {
    /// A table that binds the predefined names and nothing else.
    pub fn new() -> (table: SymTable)
        ensures
            table@ == Symbols::predefined(),
    {
        let mut table = SymTable {
            entries: StringHashMap::new(),
            address: FIRST_VARIABLE_ADDRESS as u32,
        };
        table.add_defaults();
        table
    }

    /// Binds the names that the machine defines.
    fn add_defaults(&mut self)
        ensures
            final(self)@ == old(self)@.with_defaults(),
    {
        self.set("SP".to_owned(), 0);
        self.set("LCL".to_owned(), 1);
        self.set("ARG".to_owned(), 2);
        self.set("THIS".to_owned(), 3);
        self.set("THAT".to_owned(), 4);
        self.set("R0".to_owned(), 0);
        self.set("R1".to_owned(), 1);
        self.set("R2".to_owned(), 2);
        self.set("R3".to_owned(), 3);
        self.set("R4".to_owned(), 4);
        self.set("R5".to_owned(), 5);
        self.set("R6".to_owned(), 6);
        self.set("R7".to_owned(), 7);
        self.set("R8".to_owned(), 8);
        self.set("R9".to_owned(), 9);
        self.set("R10".to_owned(), 10);
        self.set("R11".to_owned(), 11);
        self.set("R12".to_owned(), 12);
        self.set("R13".to_owned(), 13);
        self.set("R14".to_owned(), 14);
        self.set("R15".to_owned(), 15);
        self.set("SCREEN".to_owned(), 16384);
        self.set("KBD".to_owned(), 24576);
    }

    /// The address that `key` is bound to, or `None` where it is not bound.
    pub fn get(&self, key: String) -> (result: Option<&u16>)
        ensures
            match result {
                Some(address) => self@.lookup(key@) == Some(*address),
                None => self@.lookup(key@).is_none(),
            },
    {
        self.entries.get(key.as_str())
    }

    /// Whether `key` can be declared: it is bound already, or an address is left for it.
    pub fn can_add(&self, key: &String) -> (possible: bool)
        ensures
            possible == self@.can_declare(key@),
    {
        self.entries.contains_key(key.as_str()) || self.address < ADDRESS_SPACE
    }

    /// Declares `key` as a variable: a name that is bound stays as it is, a new
    /// name gets the next free address.
    pub fn add(&mut self, key: String)
        requires
            old(self)@.can_declare(key@),
        ensures
            final(self)@ == old(self)@.declare(key@),
    {
        if !self.entries.contains_key(key.as_str()) {
            let address: u16 = self.address as u16;
            self.entries.insert(key, address);
            self.address = self.address + 1;
        }
    }

    /// Binds `key` to `value`, whether or not it was bound before.
    pub fn set(&mut self, key: String, value: u16)
        ensures
            final(self)@ == old(self)@.bind(key@, value),
    {
        self.entries.insert(key, value);
    }
}

} // verus!
