//! The automaton's tables: the category of each byte, the packed transition
//! for each state and category, and the state that each state saves for later
//! resumption.
//!
//! A state is a position in the JSON grammar. Nested values do not recurse:
//! where a value begins, the state to resume after it is saved on a control
//! stack, and the states that end a value resume what was saved.

use vstd::prelude::*;

verus! {

// Byte categories.

/// The space, and the end of input
pub const C_SPACE: u8 = 0;

/// Tab, line feed, carriage return
pub const C_WS: u8 = 1;

/// Any other byte below 0x20
pub const C_CTRL: u8 = 2;

/// `{`
pub const C_LBRACE: u8 = 3;

/// `}`
pub const C_RBRACE: u8 = 4;

/// `[`
pub const C_LBRACK: u8 = 5;

/// `]`
pub const C_RBRACK: u8 = 6;

/// `,`
pub const C_COMMA: u8 = 7;

/// `:`
pub const C_COLON: u8 = 8;

/// `"`
pub const C_QUOTE: u8 = 9;

/// `\\`
pub const C_BACKSLASH: u8 = 10;

/// `/`
pub const C_SLASH: u8 = 11;

/// `-`
pub const C_MINUS: u8 = 12;

/// `+`
pub const C_PLUS: u8 = 13;

/// `.`
pub const C_DOT: u8 = 14;

/// `0`
pub const C_ZERO: u8 = 15;

/// `1` to `9`
pub const C_DIGIT: u8 = 16;

/// `a`
pub const C_LOW_A: u8 = 17;

/// `b`
pub const C_LOW_B: u8 = 18;

/// `e`
pub const C_LOW_E: u8 = 19;

/// `E`
pub const C_UP_E: u8 = 20;

/// `f`
pub const C_LOW_F: u8 = 21;

/// `l`
pub const C_LOW_L: u8 = 22;

/// `n`
pub const C_LOW_N: u8 = 23;

/// `r`
pub const C_LOW_R: u8 = 24;

/// `s`
pub const C_LOW_S: u8 = 25;

/// `t`
pub const C_LOW_T: u8 = 26;

/// `u`
pub const C_LOW_U: u8 = 27;

/// Every other byte, those above 0x7e included
pub const C_OTHER: u8 = 28;

/// How many categories there are.
pub const NUM_CATEGORIES: u8 = 29;

// States.

/// Between documents: the start state, and the only accepting one
pub const S_START: u8 = 0;

/// After `[`: an item or `]`
pub const S_ARRAY_OPEN: u8 = 1;

/// After `,` in an array: an item
pub const S_ARRAY_NEXT: u8 = 2;

/// An array item is complete and not yet appended
pub const S_ARRAY_ITEM: u8 = 3;

/// After an appended item: `,` or `]`
pub const S_ARRAY_REST: u8 = 4;

/// After `{`: a key or `}`
pub const S_OBJECT_OPEN: u8 = 5;

/// After `,` in an object: a key
pub const S_OBJECT_NEXT: u8 = 6;

/// A key is complete: `:`
pub const S_OBJECT_KEY: u8 = 7;

/// After `:`: the value of the key
pub const S_OBJECT_COLON: u8 = 8;

/// A key's value is complete and not yet bound
pub const S_OBJECT_ITEM: u8 = 9;

/// After a binding: `,` or `}`
pub const S_OBJECT_REST: u8 = 10;

/// A value is complete: whatever comes next resumes the saved state
pub const S_DONE: u8 = 11;

/// Inside a string
pub const S_STRING: u8 = 12;

/// After a backslash
pub const S_ESCAPE: u8 = 13;

/// After `\\u`: first digit
pub const S_HEX1: u8 = 14;

/// Second digit of a `\\u` escape
pub const S_HEX2: u8 = 15;

/// Third digit of a `\\u` escape
pub const S_HEX3: u8 = 16;

/// Fourth digit of a `\\u` escape
pub const S_HEX4: u8 = 17;

/// Four digits are in: resolve them, then go on as in a string
pub const S_HEX_END: u8 = 18;

/// After a leading `-`
pub const S_MINUS: u8 = 19;

/// After a leading `0`
pub const S_ZERO: u8 = 20;

/// In the digits of an integer
pub const S_INTEGER: u8 = 21;

/// After the decimal point: a digit
pub const S_POINT: u8 = 22;

/// In the digits of a fraction
pub const S_FRACTION: u8 = 23;

/// After `e` or `E`: a sign or a digit
pub const S_EXPONENT: u8 = 24;

/// After the sign of an exponent: a digit
pub const S_EXP_SIGN: u8 = 25;

/// In the digits of an exponent
pub const S_EXP_DIGITS: u8 = 26;

/// After `t`
pub const S_T: u8 = 27;

/// After `tr`
pub const S_TR: u8 = 28;

/// After `tru`
pub const S_TRU: u8 = 29;

/// After `f`
pub const S_F: u8 = 30;

/// After `fa`
pub const S_FA: u8 = 31;

/// After `fal`
pub const S_FAL: u8 = 32;

/// After `fals`
pub const S_FALS: u8 = 33;

/// After `n`
pub const S_N: u8 = 34;

/// After `nu`
pub const S_NU: u8 = 35;

/// After `nul`
pub const S_NUL: u8 = 36;

/// How many states there are.
pub const NUM_STATES: u8 = 37;

// Actions.

/// No action
pub const A_NONE: u8 = 0;

/// Push an empty list
pub const A_LIST: u8 = 1;

/// Push an empty object
pub const A_OBJECT: u8 = 2;

/// Pop a value and append it to the list below
pub const A_APPEND: u8 = 3;

/// Pop a value and a key and bind them in the object below
pub const A_BIND: u8 = 4;

/// Push `null`
pub const A_NULL: u8 = 5;

/// Push `true`
pub const A_TRUE: u8 = 6;

/// Push `false`
pub const A_FALSE: u8 = 7;

/// Push the raw text as a string
pub const A_STRING: u8 = 8;

/// Push the raw text as an integer
pub const A_INT: u8 = 9;

/// Push the raw text as a number with fraction or exponent
pub const A_FLOAT: u8 = 10;

/// Append the byte to the raw text
pub const A_RAW: u8 = 11;

/// Append the byte to the escape digits
pub const A_ESC: u8 = 12;

/// Resolve a one-letter escape
pub const A_SHORT: u8 = 13;

/// Resolve the four escape digits
pub const A_UNICODE: u8 = 14;

/// The category of each byte up to 0x7e; larger bytes share the category of 0x7e.
pub const CATCODE: [u8; 127] = [
    2, 2, 2, 2, 2, 2, 2, 2, 2, 1, 1, 2, 2, 1, 2, 2,
    2, 2, 2, 2, 2, 2, 2, 2, 2, 2, 2, 2, 2, 2, 2, 2,
    0, 28, 9, 28, 28, 28, 28, 28, 28, 28, 28, 13, 7, 12, 14, 11,
    15, 16, 16, 16, 16, 16, 16, 16, 16, 16, 8, 28, 28, 28, 28, 28,
    28, 28, 28, 28, 28, 20, 28, 28, 28, 28, 28, 28, 28, 28, 28, 28,
    28, 28, 28, 28, 28, 28, 28, 28, 28, 28, 28, 5, 10, 6, 28, 28,
    28, 17, 18, 28, 28, 19, 21, 28, 28, 28, 28, 28, 22, 28, 23, 28,
    28, 28, 24, 25, 26, 27, 28, 28, 28, 28, 28, 3, 28, 4, 28,
];

/// For each state, the state to resume once the value begun there is complete.
pub const GOTOS: [u8; 37] = [
    0, 3, 3, 0, 0, 7, 7, 0, 9, 0, 0, 0, 0, 0, 0, 0,
    0, 0, 12, 0, 0, 0, 0, 0, 0, 0, 0, 0, 0, 0, 0, 0,
    0, 0, 0, 0, 0,
];

/// The packed transition for each state and category: the action in the high
/// byte, its top bit set where the resumption state is saved first, and in the
/// low byte the next state, or `POP` to resume the saved state on the same byte.
/// `REJECT` marks a byte that the state does not allow.
pub const STATES: [[u16; 29]; 37] = [
    // S_START
    [
        0x0000, 0x0000, 0xFFFF, 0x8205, 0xFFFF, 0x8101, 0xFFFF, 0xFFFF, 0xFFFF, 0x800C,
        0xFFFF, 0xFFFF, 0x8B13, 0xFFFF, 0xFFFF, 0x8B14, 0x8B15, 0xFFFF, 0xFFFF, 0xFFFF,
        0xFFFF, 0x801E, 0xFFFF, 0x8022, 0xFFFF, 0xFFFF, 0x801B, 0xFFFF, 0xFFFF,
    ],
    // S_ARRAY_OPEN
    [
        0x0001, 0x0001, 0xFFFF, 0x8205, 0xFFFF, 0x8101, 0x000B, 0xFFFF, 0xFFFF, 0x800C,
        0xFFFF, 0xFFFF, 0x8B13, 0xFFFF, 0xFFFF, 0x8B14, 0x8B15, 0xFFFF, 0xFFFF, 0xFFFF,
        0xFFFF, 0x801E, 0xFFFF, 0x8022, 0xFFFF, 0xFFFF, 0x801B, 0xFFFF, 0xFFFF,
    ],
    // S_ARRAY_NEXT
    [
        0x0002, 0x0002, 0xFFFF, 0x8205, 0xFFFF, 0x8101, 0xFFFF, 0xFFFF, 0xFFFF, 0x800C,
        0xFFFF, 0xFFFF, 0x8B13, 0xFFFF, 0xFFFF, 0x8B14, 0x8B15, 0xFFFF, 0xFFFF, 0xFFFF,
        0xFFFF, 0x801E, 0xFFFF, 0x8022, 0xFFFF, 0xFFFF, 0x801B, 0xFFFF, 0xFFFF,
    ],
    // S_ARRAY_ITEM
    [
        0x0304, 0x0304, 0xFFFF, 0xFFFF, 0xFFFF, 0xFFFF, 0x030B, 0x0302, 0xFFFF, 0xFFFF,
        0xFFFF, 0xFFFF, 0xFFFF, 0xFFFF, 0xFFFF, 0xFFFF, 0xFFFF, 0xFFFF, 0xFFFF, 0xFFFF,
        0xFFFF, 0xFFFF, 0xFFFF, 0xFFFF, 0xFFFF, 0xFFFF, 0xFFFF, 0xFFFF, 0xFFFF,
    ],
    // S_ARRAY_REST
    [
        0x0004, 0x0004, 0xFFFF, 0xFFFF, 0xFFFF, 0xFFFF, 0x000B, 0x0002, 0xFFFF, 0xFFFF,
        0xFFFF, 0xFFFF, 0xFFFF, 0xFFFF, 0xFFFF, 0xFFFF, 0xFFFF, 0xFFFF, 0xFFFF, 0xFFFF,
        0xFFFF, 0xFFFF, 0xFFFF, 0xFFFF, 0xFFFF, 0xFFFF, 0xFFFF, 0xFFFF, 0xFFFF,
    ],
    // S_OBJECT_OPEN
    [
        0x0005, 0x0005, 0xFFFF, 0xFFFF, 0x000B, 0xFFFF, 0xFFFF, 0xFFFF, 0xFFFF, 0x800C,
        0xFFFF, 0xFFFF, 0xFFFF, 0xFFFF, 0xFFFF, 0xFFFF, 0xFFFF, 0xFFFF, 0xFFFF, 0xFFFF,
        0xFFFF, 0xFFFF, 0xFFFF, 0xFFFF, 0xFFFF, 0xFFFF, 0xFFFF, 0xFFFF, 0xFFFF,
    ],
    // S_OBJECT_NEXT
    [
        0x0006, 0x0006, 0xFFFF, 0xFFFF, 0xFFFF, 0xFFFF, 0xFFFF, 0xFFFF, 0xFFFF, 0x800C,
        0xFFFF, 0xFFFF, 0xFFFF, 0xFFFF, 0xFFFF, 0xFFFF, 0xFFFF, 0xFFFF, 0xFFFF, 0xFFFF,
        0xFFFF, 0xFFFF, 0xFFFF, 0xFFFF, 0xFFFF, 0xFFFF, 0xFFFF, 0xFFFF, 0xFFFF,
    ],
    // S_OBJECT_KEY
    [
        0x0007, 0x0007, 0xFFFF, 0xFFFF, 0xFFFF, 0xFFFF, 0xFFFF, 0xFFFF, 0x0008, 0xFFFF,
        0xFFFF, 0xFFFF, 0xFFFF, 0xFFFF, 0xFFFF, 0xFFFF, 0xFFFF, 0xFFFF, 0xFFFF, 0xFFFF,
        0xFFFF, 0xFFFF, 0xFFFF, 0xFFFF, 0xFFFF, 0xFFFF, 0xFFFF, 0xFFFF, 0xFFFF,
    ],
    // S_OBJECT_COLON
    [
        0x0008, 0x0008, 0xFFFF, 0x8205, 0xFFFF, 0x8101, 0xFFFF, 0xFFFF, 0xFFFF, 0x800C,
        0xFFFF, 0xFFFF, 0x8B13, 0xFFFF, 0xFFFF, 0x8B14, 0x8B15, 0xFFFF, 0xFFFF, 0xFFFF,
        0xFFFF, 0x801E, 0xFFFF, 0x8022, 0xFFFF, 0xFFFF, 0x801B, 0xFFFF, 0xFFFF,
    ],
    // S_OBJECT_ITEM
    [
        0x040A, 0x040A, 0xFFFF, 0xFFFF, 0x040B, 0xFFFF, 0xFFFF, 0x0406, 0xFFFF, 0xFFFF,
        0xFFFF, 0xFFFF, 0xFFFF, 0xFFFF, 0xFFFF, 0xFFFF, 0xFFFF, 0xFFFF, 0xFFFF, 0xFFFF,
        0xFFFF, 0xFFFF, 0xFFFF, 0xFFFF, 0xFFFF, 0xFFFF, 0xFFFF, 0xFFFF, 0xFFFF,
    ],
    // S_OBJECT_REST
    [
        0x000A, 0x000A, 0xFFFF, 0xFFFF, 0x000B, 0xFFFF, 0xFFFF, 0x0006, 0xFFFF, 0xFFFF,
        0xFFFF, 0xFFFF, 0xFFFF, 0xFFFF, 0xFFFF, 0xFFFF, 0xFFFF, 0xFFFF, 0xFFFF, 0xFFFF,
        0xFFFF, 0xFFFF, 0xFFFF, 0xFFFF, 0xFFFF, 0xFFFF, 0xFFFF, 0xFFFF, 0xFFFF,
    ],
    // S_DONE
    [
        0x00FF, 0x00FF, 0x00FF, 0x00FF, 0x00FF, 0x00FF, 0x00FF, 0x00FF, 0x00FF, 0x00FF,
        0x00FF, 0x00FF, 0x00FF, 0x00FF, 0x00FF, 0x00FF, 0x00FF, 0x00FF, 0x00FF, 0x00FF,
        0x00FF, 0x00FF, 0x00FF, 0x00FF, 0x00FF, 0x00FF, 0x00FF, 0x00FF, 0x00FF,
    ],
    // S_STRING
    [
        0x0B0C, 0xFFFF, 0xFFFF, 0x0B0C, 0x0B0C, 0x0B0C, 0x0B0C, 0x0B0C, 0x0B0C, 0x080B,
        0x000D, 0x0B0C, 0x0B0C, 0x0B0C, 0x0B0C, 0x0B0C, 0x0B0C, 0x0B0C, 0x0B0C, 0x0B0C,
        0x0B0C, 0x0B0C, 0x0B0C, 0x0B0C, 0x0B0C, 0x0B0C, 0x0B0C, 0x0B0C, 0x0B0C,
    ],
    // S_ESCAPE
    [
        0xFFFF, 0xFFFF, 0xFFFF, 0x0D0C, 0x0D0C, 0x0D0C, 0x0D0C, 0x0D0C, 0x0D0C, 0x0B0C,
        0x0B0C, 0x0B0C, 0x0D0C, 0x0D0C, 0x0D0C, 0x0D0C, 0x0D0C, 0x0D0C, 0x0D0C, 0x0D0C,
        0x0D0C, 0x0D0C, 0x0D0C, 0x0D0C, 0x0D0C, 0x0D0C, 0x0D0C, 0x000E, 0x0D0C,
    ],
    // S_HEX1
    [
        0x0C0F, 0xFFFF, 0xFFFF, 0x0C0F, 0x0C0F, 0x0C0F, 0x0C0F, 0x0C0F, 0x0C0F, 0x0C0F,
        0x0C0F, 0x0C0F, 0x0C0F, 0x0C0F, 0x0C0F, 0x0C0F, 0x0C0F, 0x0C0F, 0x0C0F, 0x0C0F,
        0x0C0F, 0x0C0F, 0x0C0F, 0x0C0F, 0x0C0F, 0x0C0F, 0x0C0F, 0x0C0F, 0x0C0F,
    ],
    // S_HEX2
    [
        0x0C10, 0xFFFF, 0xFFFF, 0x0C10, 0x0C10, 0x0C10, 0x0C10, 0x0C10, 0x0C10, 0x0C10,
        0x0C10, 0x0C10, 0x0C10, 0x0C10, 0x0C10, 0x0C10, 0x0C10, 0x0C10, 0x0C10, 0x0C10,
        0x0C10, 0x0C10, 0x0C10, 0x0C10, 0x0C10, 0x0C10, 0x0C10, 0x0C10, 0x0C10,
    ],
    // S_HEX3
    [
        0x0C11, 0xFFFF, 0xFFFF, 0x0C11, 0x0C11, 0x0C11, 0x0C11, 0x0C11, 0x0C11, 0x0C11,
        0x0C11, 0x0C11, 0x0C11, 0x0C11, 0x0C11, 0x0C11, 0x0C11, 0x0C11, 0x0C11, 0x0C11,
        0x0C11, 0x0C11, 0x0C11, 0x0C11, 0x0C11, 0x0C11, 0x0C11, 0x0C11, 0x0C11,
    ],
    // S_HEX4
    [
        0x0C12, 0xFFFF, 0xFFFF, 0x0C12, 0x0C12, 0x0C12, 0x0C12, 0x0C12, 0x0C12, 0x0C12,
        0x0C12, 0x0C12, 0x0C12, 0x0C12, 0x0C12, 0x0C12, 0x0C12, 0x0C12, 0x0C12, 0x0C12,
        0x0C12, 0x0C12, 0x0C12, 0x0C12, 0x0C12, 0x0C12, 0x0C12, 0x0C12, 0x0C12,
    ],
    // S_HEX_END
    [
        0x8EFF, 0x8EFF, 0x8EFF, 0x8EFF, 0x8EFF, 0x8EFF, 0x8EFF, 0x8EFF, 0x8EFF, 0x8EFF,
        0x8EFF, 0x8EFF, 0x8EFF, 0x8EFF, 0x8EFF, 0x8EFF, 0x8EFF, 0x8EFF, 0x8EFF, 0x8EFF,
        0x8EFF, 0x8EFF, 0x8EFF, 0x8EFF, 0x8EFF, 0x8EFF, 0x8EFF, 0x8EFF, 0x8EFF,
    ],
    // S_MINUS
    [
        0xFFFF, 0xFFFF, 0xFFFF, 0xFFFF, 0xFFFF, 0xFFFF, 0xFFFF, 0xFFFF, 0xFFFF, 0xFFFF,
        0xFFFF, 0xFFFF, 0xFFFF, 0xFFFF, 0xFFFF, 0x0B14, 0x0B15, 0xFFFF, 0xFFFF, 0xFFFF,
        0xFFFF, 0xFFFF, 0xFFFF, 0xFFFF, 0xFFFF, 0xFFFF, 0xFFFF, 0xFFFF, 0xFFFF,
    ],
    // S_ZERO
    [
        0x09FF, 0x09FF, 0x09FF, 0x09FF, 0x09FF, 0x09FF, 0x09FF, 0x09FF, 0x09FF, 0x09FF,
        0x09FF, 0x09FF, 0x09FF, 0x09FF, 0x0B16, 0x09FF, 0x09FF, 0x09FF, 0x09FF, 0x0B18,
        0x0B18, 0x09FF, 0x09FF, 0x09FF, 0x09FF, 0x09FF, 0x09FF, 0x09FF, 0x09FF,
    ],
    // S_INTEGER
    [
        0x09FF, 0x09FF, 0x09FF, 0x09FF, 0x09FF, 0x09FF, 0x09FF, 0x09FF, 0x09FF, 0x09FF,
        0x09FF, 0x09FF, 0x09FF, 0x09FF, 0x0B16, 0x0B15, 0x0B15, 0x09FF, 0x09FF, 0x0B18,
        0x0B18, 0x09FF, 0x09FF, 0x09FF, 0x09FF, 0x09FF, 0x09FF, 0x09FF, 0x09FF,
    ],
    // S_POINT
    [
        0xFFFF, 0xFFFF, 0xFFFF, 0xFFFF, 0xFFFF, 0xFFFF, 0xFFFF, 0xFFFF, 0xFFFF, 0xFFFF,
        0xFFFF, 0xFFFF, 0xFFFF, 0xFFFF, 0xFFFF, 0x0B17, 0x0B17, 0xFFFF, 0xFFFF, 0xFFFF,
        0xFFFF, 0xFFFF, 0xFFFF, 0xFFFF, 0xFFFF, 0xFFFF, 0xFFFF, 0xFFFF, 0xFFFF,
    ],
    // S_FRACTION
    [
        0x0AFF, 0x0AFF, 0x0AFF, 0x0AFF, 0x0AFF, 0x0AFF, 0x0AFF, 0x0AFF, 0x0AFF, 0x0AFF,
        0x0AFF, 0x0AFF, 0x0AFF, 0x0AFF, 0x0AFF, 0x0B17, 0x0B17, 0x0AFF, 0x0AFF, 0x0B18,
        0x0B18, 0x0AFF, 0x0AFF, 0x0AFF, 0x0AFF, 0x0AFF, 0x0AFF, 0x0AFF, 0x0AFF,
    ],
    // S_EXPONENT
    [
        0xFFFF, 0xFFFF, 0xFFFF, 0xFFFF, 0xFFFF, 0xFFFF, 0xFFFF, 0xFFFF, 0xFFFF, 0xFFFF,
        0xFFFF, 0xFFFF, 0x0B19, 0x0B19, 0xFFFF, 0x0B1A, 0x0B1A, 0xFFFF, 0xFFFF, 0xFFFF,
        0xFFFF, 0xFFFF, 0xFFFF, 0xFFFF, 0xFFFF, 0xFFFF, 0xFFFF, 0xFFFF, 0xFFFF,
    ],
    // S_EXP_SIGN
    [
        0xFFFF, 0xFFFF, 0xFFFF, 0xFFFF, 0xFFFF, 0xFFFF, 0xFFFF, 0xFFFF, 0xFFFF, 0xFFFF,
        0xFFFF, 0xFFFF, 0xFFFF, 0xFFFF, 0xFFFF, 0x0B1A, 0x0B1A, 0xFFFF, 0xFFFF, 0xFFFF,
        0xFFFF, 0xFFFF, 0xFFFF, 0xFFFF, 0xFFFF, 0xFFFF, 0xFFFF, 0xFFFF, 0xFFFF,
    ],
    // S_EXP_DIGITS
    [
        0x0AFF, 0x0AFF, 0x0AFF, 0x0AFF, 0x0AFF, 0x0AFF, 0x0AFF, 0x0AFF, 0x0AFF, 0x0AFF,
        0x0AFF, 0x0AFF, 0x0AFF, 0x0AFF, 0x0AFF, 0x0B1A, 0x0B1A, 0x0AFF, 0x0AFF, 0x0AFF,
        0x0AFF, 0x0AFF, 0x0AFF, 0x0AFF, 0x0AFF, 0x0AFF, 0x0AFF, 0x0AFF, 0x0AFF,
    ],
    // S_T
    [
        0xFFFF, 0xFFFF, 0xFFFF, 0xFFFF, 0xFFFF, 0xFFFF, 0xFFFF, 0xFFFF, 0xFFFF, 0xFFFF,
        0xFFFF, 0xFFFF, 0xFFFF, 0xFFFF, 0xFFFF, 0xFFFF, 0xFFFF, 0xFFFF, 0xFFFF, 0xFFFF,
        0xFFFF, 0xFFFF, 0xFFFF, 0xFFFF, 0x001C, 0xFFFF, 0xFFFF, 0xFFFF, 0xFFFF,
    ],
    // S_TR
    [
        0xFFFF, 0xFFFF, 0xFFFF, 0xFFFF, 0xFFFF, 0xFFFF, 0xFFFF, 0xFFFF, 0xFFFF, 0xFFFF,
        0xFFFF, 0xFFFF, 0xFFFF, 0xFFFF, 0xFFFF, 0xFFFF, 0xFFFF, 0xFFFF, 0xFFFF, 0xFFFF,
        0xFFFF, 0xFFFF, 0xFFFF, 0xFFFF, 0xFFFF, 0xFFFF, 0xFFFF, 0x001D, 0xFFFF,
    ],
    // S_TRU
    [
        0xFFFF, 0xFFFF, 0xFFFF, 0xFFFF, 0xFFFF, 0xFFFF, 0xFFFF, 0xFFFF, 0xFFFF, 0xFFFF,
        0xFFFF, 0xFFFF, 0xFFFF, 0xFFFF, 0xFFFF, 0xFFFF, 0xFFFF, 0xFFFF, 0xFFFF, 0x060B,
        0xFFFF, 0xFFFF, 0xFFFF, 0xFFFF, 0xFFFF, 0xFFFF, 0xFFFF, 0xFFFF, 0xFFFF,
    ],
    // S_F
    [
        0xFFFF, 0xFFFF, 0xFFFF, 0xFFFF, 0xFFFF, 0xFFFF, 0xFFFF, 0xFFFF, 0xFFFF, 0xFFFF,
        0xFFFF, 0xFFFF, 0xFFFF, 0xFFFF, 0xFFFF, 0xFFFF, 0xFFFF, 0x001F, 0xFFFF, 0xFFFF,
        0xFFFF, 0xFFFF, 0xFFFF, 0xFFFF, 0xFFFF, 0xFFFF, 0xFFFF, 0xFFFF, 0xFFFF,
    ],
    // S_FA
    [
        0xFFFF, 0xFFFF, 0xFFFF, 0xFFFF, 0xFFFF, 0xFFFF, 0xFFFF, 0xFFFF, 0xFFFF, 0xFFFF,
        0xFFFF, 0xFFFF, 0xFFFF, 0xFFFF, 0xFFFF, 0xFFFF, 0xFFFF, 0xFFFF, 0xFFFF, 0xFFFF,
        0xFFFF, 0xFFFF, 0x0020, 0xFFFF, 0xFFFF, 0xFFFF, 0xFFFF, 0xFFFF, 0xFFFF,
    ],
    // S_FAL
    [
        0xFFFF, 0xFFFF, 0xFFFF, 0xFFFF, 0xFFFF, 0xFFFF, 0xFFFF, 0xFFFF, 0xFFFF, 0xFFFF,
        0xFFFF, 0xFFFF, 0xFFFF, 0xFFFF, 0xFFFF, 0xFFFF, 0xFFFF, 0xFFFF, 0xFFFF, 0xFFFF,
        0xFFFF, 0xFFFF, 0xFFFF, 0xFFFF, 0xFFFF, 0x0021, 0xFFFF, 0xFFFF, 0xFFFF,
    ],
    // S_FALS
    [
        0xFFFF, 0xFFFF, 0xFFFF, 0xFFFF, 0xFFFF, 0xFFFF, 0xFFFF, 0xFFFF, 0xFFFF, 0xFFFF,
        0xFFFF, 0xFFFF, 0xFFFF, 0xFFFF, 0xFFFF, 0xFFFF, 0xFFFF, 0xFFFF, 0xFFFF, 0x070B,
        0xFFFF, 0xFFFF, 0xFFFF, 0xFFFF, 0xFFFF, 0xFFFF, 0xFFFF, 0xFFFF, 0xFFFF,
    ],
    // S_N
    [
        0xFFFF, 0xFFFF, 0xFFFF, 0xFFFF, 0xFFFF, 0xFFFF, 0xFFFF, 0xFFFF, 0xFFFF, 0xFFFF,
        0xFFFF, 0xFFFF, 0xFFFF, 0xFFFF, 0xFFFF, 0xFFFF, 0xFFFF, 0xFFFF, 0xFFFF, 0xFFFF,
        0xFFFF, 0xFFFF, 0xFFFF, 0xFFFF, 0xFFFF, 0xFFFF, 0xFFFF, 0x0023, 0xFFFF,
    ],
    // S_NU
    [
        0xFFFF, 0xFFFF, 0xFFFF, 0xFFFF, 0xFFFF, 0xFFFF, 0xFFFF, 0xFFFF, 0xFFFF, 0xFFFF,
        0xFFFF, 0xFFFF, 0xFFFF, 0xFFFF, 0xFFFF, 0xFFFF, 0xFFFF, 0xFFFF, 0xFFFF, 0xFFFF,
        0xFFFF, 0xFFFF, 0x0024, 0xFFFF, 0xFFFF, 0xFFFF, 0xFFFF, 0xFFFF, 0xFFFF,
    ],
    // S_NUL
    [
        0xFFFF, 0xFFFF, 0xFFFF, 0xFFFF, 0xFFFF, 0xFFFF, 0xFFFF, 0xFFFF, 0xFFFF, 0xFFFF,
        0xFFFF, 0xFFFF, 0xFFFF, 0xFFFF, 0xFFFF, 0xFFFF, 0xFFFF, 0xFFFF, 0xFFFF, 0xFFFF,
        0xFFFF, 0xFFFF, 0x050B, 0xFFFF, 0xFFFF, 0xFFFF, 0xFFFF, 0xFFFF, 0xFFFF,
    ],
];

/// The low byte that stands for "resume the saved state".
pub const POP: u8 = 0xFF;

/// The packed code of a byte that the state does not allow.
pub const REJECT: u16 = 0xFFFF;

/// The top bit of the high byte: save the resumption state first.
pub const SAVE: u8 = 0x80;

/// What a packed transition says.
pub enum Entry {
    /// The byte is not allowed here.
    Reject,
    /// Perform `action`, consume the byte and go to `next`.
    Shift { save: bool, action: u8, next: u8 },
    /// Perform `action`, then resume the state on top of the control stack and
    /// look the same byte up again there.
    Reduce { save: bool, action: u8 },
}

/// The meaning of a packed transition code.
pub open spec fn unpack(code: u16) -> Entry {
    let high = code / 256;
    let low = code % 256;
    let save = high >= SAVE;
    let action = (if save {
        high - SAVE
    } else {
        high as int
    }) as u8;
    if code == REJECT {
        Entry::Reject
    } else if low == POP {
        Entry::Reduce { save, action }
    } else {
        Entry::Shift { save, action, next: low as u8 }
    }
}

/// The category of a byte.
pub open spec fn category_of(byte: u8) -> u8 {
    if byte < 0x7e {
        CATCODE[byte as int]
    } else {
        CATCODE[0x7e]
    }
}

/// The transition of `state` on a byte of category `cat`.
#[verifier::opaque]
pub open spec fn entry(state: u8, cat: u8) -> Entry {
    if state < NUM_STATES && cat < NUM_CATEGORIES {
        unpack(STATES[state as int][cat as int])
    } else {
        Entry::Reject
    }
}

/// The state that `state` saves where a value begins in it.
pub open spec fn resume_of(state: u8) -> u8 {
    if state < NUM_STATES {
        GOTOS[state as int]
    } else {
        S_START
    }
}

/// How many reductions that save can follow one another from `state` without
/// the control stack shrinking.
pub open spec fn rank(state: u8) -> nat {
    if state == S_HEX_END {
        1
    } else {
        0
    }
}

/// A transition that consumes the byte, with neither saving nor action.
pub open spec fn go(next: u8) -> Entry {
    Entry::Shift { save: false, action: A_NONE, next }
}

/// A transition that performs an action and consumes the byte.
pub open spec fn act(action: u8, next: u8) -> Entry {
    Entry::Shift { save: false, action, next }
}

/// A transition that begins a value: it saves the state to resume.
pub open spec fn begin(action: u8, next: u8) -> Entry {
    Entry::Shift { save: true, action, next }
}

/// A transition that ends a value: it resumes the saved state.
pub open spec fn end(action: u8) -> Entry {
    Entry::Reduce { save: false, action }
}

/// The categories of whitespace.
pub open spec fn blank_cat(cat: u8) -> bool {
    cat == C_SPACE || cat == C_WS
}

/// The categories of decimal digits.
pub open spec fn digit_cat(cat: u8) -> bool {
    cat == C_ZERO || cat == C_DIGIT
}

/// The transition on the first byte of a value, where one may begin.
pub open spec fn begin_entry(cat: u8) -> Entry {
    if cat == C_LBRACK {
        begin(A_LIST, S_ARRAY_OPEN)
    } else if cat == C_LBRACE {
        begin(A_OBJECT, S_OBJECT_OPEN)
    } else if cat == C_QUOTE {
        begin(A_NONE, S_STRING)
    } else if cat == C_MINUS {
        begin(A_RAW, S_MINUS)
    } else if cat == C_ZERO {
        begin(A_RAW, S_ZERO)
    } else if cat == C_DIGIT {
        begin(A_RAW, S_INTEGER)
    } else if cat == C_LOW_T {
        begin(A_NONE, S_T)
    } else if cat == C_LOW_F {
        begin(A_NONE, S_F)
    } else if cat == C_LOW_N {
        begin(A_NONE, S_N)
    } else {
        Entry::Reject
    }
}

/// The transition for the one category that a state inside a literal allows.
pub open spec fn only(cat: u8, expected: u8, e: Entry) -> Entry {
    if cat == expected {
        e
    } else {
        Entry::Reject
    }
}

/// The transitions of the automaton, state by state: what the packed table
/// holds, in words.
pub open spec fn transition(state: u8, cat: u8) -> Entry {
    if cat >= NUM_CATEGORIES {
        Entry::Reject
    } else if state == S_START || state == S_ARRAY_NEXT || state == S_OBJECT_COLON {
        if blank_cat(cat) {
            go(state)
        } else {
            begin_entry(cat)
        }
    } else if state == S_ARRAY_OPEN {
        if blank_cat(cat) {
            go(state)
        } else if cat == C_RBRACK {
            go(S_DONE)
        } else {
            begin_entry(cat)
        }
    } else if state == S_ARRAY_ITEM {
        if blank_cat(cat) {
            act(A_APPEND, S_ARRAY_REST)
        } else if cat == C_COMMA {
            act(A_APPEND, S_ARRAY_NEXT)
        } else if cat == C_RBRACK {
            act(A_APPEND, S_DONE)
        } else {
            Entry::Reject
        }
    } else if state == S_ARRAY_REST {
        if blank_cat(cat) {
            go(state)
        } else if cat == C_COMMA {
            go(S_ARRAY_NEXT)
        } else if cat == C_RBRACK {
            go(S_DONE)
        } else {
            Entry::Reject
        }
    } else if state == S_OBJECT_OPEN {
        if blank_cat(cat) {
            go(state)
        } else if cat == C_QUOTE {
            begin(A_NONE, S_STRING)
        } else if cat == C_RBRACE {
            go(S_DONE)
        } else {
            Entry::Reject
        }
    } else if state == S_OBJECT_NEXT {
        if blank_cat(cat) {
            go(state)
        } else if cat == C_QUOTE {
            begin(A_NONE, S_STRING)
        } else {
            Entry::Reject
        }
    } else if state == S_OBJECT_KEY {
        if blank_cat(cat) {
            go(state)
        } else if cat == C_COLON {
            go(S_OBJECT_COLON)
        } else {
            Entry::Reject
        }
    } else if state == S_OBJECT_ITEM {
        if blank_cat(cat) {
            act(A_BIND, S_OBJECT_REST)
        } else if cat == C_COMMA {
            act(A_BIND, S_OBJECT_NEXT)
        } else if cat == C_RBRACE {
            act(A_BIND, S_DONE)
        } else {
            Entry::Reject
        }
    } else if state == S_OBJECT_REST {
        if blank_cat(cat) {
            go(state)
        } else if cat == C_COMMA {
            go(S_OBJECT_NEXT)
        } else if cat == C_RBRACE {
            go(S_DONE)
        } else {
            Entry::Reject
        }
    } else if state == S_DONE {
        end(A_NONE)
    } else if state == S_STRING {
        if cat == C_QUOTE {
            act(A_STRING, S_DONE)
        } else if cat == C_BACKSLASH {
            go(S_ESCAPE)
        } else if cat == C_WS || cat == C_CTRL {
            Entry::Reject
        } else {
            act(A_RAW, S_STRING)
        }
    } else if state == S_ESCAPE {
        if cat == C_QUOTE || cat == C_BACKSLASH || cat == C_SLASH {
            act(A_RAW, S_STRING)
        } else if cat == C_LOW_U {
            go(S_HEX1)
        } else if blank_cat(cat) || cat == C_CTRL {
            Entry::Reject
        } else {
            act(A_SHORT, S_STRING)
        }
    } else if S_HEX1 <= state <= S_HEX4 {
        if cat == C_WS || cat == C_CTRL {
            Entry::Reject
        } else {
            act(A_ESC, (state + 1) as u8)
        }
    } else if state == S_HEX_END {
        Entry::Reduce { save: true, action: A_UNICODE }
    } else if state == S_MINUS {
        if cat == C_ZERO {
            act(A_RAW, S_ZERO)
        } else if cat == C_DIGIT {
            act(A_RAW, S_INTEGER)
        } else {
            Entry::Reject
        }
    } else if state == S_ZERO || state == S_INTEGER {
        if digit_cat(cat) && state == S_INTEGER {
            act(A_RAW, S_INTEGER)
        } else if cat == C_DOT {
            act(A_RAW, S_POINT)
        } else if cat == C_LOW_E || cat == C_UP_E {
            act(A_RAW, S_EXPONENT)
        } else {
            end(A_INT)
        }
    } else if state == S_POINT {
        if digit_cat(cat) {
            act(A_RAW, S_FRACTION)
        } else {
            Entry::Reject
        }
    } else if state == S_FRACTION {
        if digit_cat(cat) {
            act(A_RAW, S_FRACTION)
        } else if cat == C_LOW_E || cat == C_UP_E {
            act(A_RAW, S_EXPONENT)
        } else {
            end(A_FLOAT)
        }
    } else if state == S_EXPONENT {
        if cat == C_PLUS || cat == C_MINUS {
            act(A_RAW, S_EXP_SIGN)
        } else if digit_cat(cat) {
            act(A_RAW, S_EXP_DIGITS)
        } else {
            Entry::Reject
        }
    } else if state == S_EXP_SIGN {
        if digit_cat(cat) {
            act(A_RAW, S_EXP_DIGITS)
        } else {
            Entry::Reject
        }
    } else if state == S_EXP_DIGITS {
        if digit_cat(cat) {
            act(A_RAW, S_EXP_DIGITS)
        } else {
            end(A_FLOAT)
        }
    } else if state == S_T {
        only(cat, C_LOW_R, go(S_TR))
    } else if state == S_TR {
        only(cat, C_LOW_U, go(S_TRU))
    } else if state == S_TRU {
        only(cat, C_LOW_E, act(A_TRUE, S_DONE))
    } else if state == S_F {
        only(cat, C_LOW_A, go(S_FA))
    } else if state == S_FA {
        only(cat, C_LOW_L, go(S_FAL))
    } else if state == S_FAL {
        only(cat, C_LOW_S, go(S_FALS))
    } else if state == S_FALS {
        only(cat, C_LOW_E, act(A_FALSE, S_DONE))
    } else if state == S_N {
        only(cat, C_LOW_U, go(S_NU))
    } else if state == S_NU {
        only(cat, C_LOW_L, go(S_NUL))
    } else if state == S_NUL {
        only(cat, C_LOW_L, act(A_NULL, S_DONE))
    } else {
        Entry::Reject
    }
}

/// The packed table holds exactly the transitions that `transition` lists.
pub proof fn lemma_table_is_transition(state: u8, cat: u8)
    ensures
        entry(state, cat) == transition(state, cat),
{
    reveal(entry);
}

/// The bytes of each category.
pub open spec fn bytes_of(cat: u8, b: u8) -> bool {
    if cat == C_SPACE {
        b == 0x20
    } else if cat == C_WS {
        b == 0x09 || b == 0x0A || b == 0x0D
    } else if cat == C_CTRL {
        b < 0x20
    } else if cat == C_LBRACE {
        b == 0x7B
    } else if cat == C_RBRACE {
        b == 0x7D
    } else if cat == C_LBRACK {
        b == 0x5B
    } else if cat == C_RBRACK {
        b == 0x5D
    } else if cat == C_COMMA {
        b == 0x2C
    } else if cat == C_COLON {
        b == 0x3A
    } else if cat == C_QUOTE {
        b == 0x22
    } else if cat == C_BACKSLASH {
        b == 0x5C
    } else if cat == C_SLASH {
        b == 0x2F
    } else if cat == C_MINUS {
        b == 0x2D
    } else if cat == C_PLUS {
        b == 0x2B
    } else if cat == C_DOT {
        b == 0x2E
    } else if cat == C_ZERO {
        b == 0x30
    } else if cat == C_DIGIT {
        0x31 <= b <= 0x39
    } else if cat == C_LOW_A {
        b == 0x61
    } else if cat == C_LOW_B {
        b == 0x62
    } else if cat == C_LOW_E {
        b == 0x65
    } else if cat == C_UP_E {
        b == 0x45
    } else if cat == C_LOW_F {
        b == 0x66
    } else if cat == C_LOW_L {
        b == 0x6C
    } else if cat == C_LOW_N {
        b == 0x6E
    } else if cat == C_LOW_R {
        b == 0x72
    } else if cat == C_LOW_S {
        b == 0x73
    } else if cat == C_LOW_T {
        b == 0x74
    } else if cat == C_LOW_U {
        b == 0x75
    } else {
        b >= 0x20
    }
}

/// Every byte has a category, and is one of the bytes of its category.
pub proof fn lemma_category_bytes(b: u8)
    ensures
        category_of(b) < NUM_CATEGORIES,
        bytes_of(category_of(b), b),
{
}

/// Category lookup: bytes above 0x7e are clamped to 0x7e first.
pub fn category(byte: u8) -> (cat: u8)
    ensures
        cat == category_of(byte),
        cat < NUM_CATEGORIES,
{
    let clamped: u8 = if byte < 0x7e {
        byte
    } else {
        0x7e
    };
    CATCODE[clamped as usize]
}

/// Transition lookup.
pub fn lookup(state: u8, cat: u8) -> (code: u16)
    requires
        state < NUM_STATES,
        cat < NUM_CATEGORIES,
    ensures
        code == STATES[state as int][cat as int],
        unpack(code) == entry(state, cat),
{
    proof {
        reveal(entry);
    }
    STATES[state as usize][cat as usize]
}

/// Lookup of the state to resume.
pub fn resume(state: u8) -> (r: u8)
    requires
        state < NUM_STATES,
    ensures
        r == resume_of(state),
{
    GOTOS[state as usize]
}

/// A reduction that saves happens only in `S_HEX_END`, and resumes a state
/// that does not reduce: no chain of reductions goes on for ever.
pub proof fn lemma_reductions_end(state: u8, cat: u8)
    ensures
        entry(state, cat) matches Entry::Reduce { save: true, .. } ==> rank(resume_of(state))
            < rank(state),
{
    reveal(entry);
}

} // verus!
