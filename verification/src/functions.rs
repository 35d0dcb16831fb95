//! The standard-library registry: each builtin's name, accepted argument
//! count, and strictness (whether a `null` argument short-circuits to a `null`
//! result). The order of the registry defines each builtin's index, which the
//! compiler bakes into its call instruction. [`call`] runs a builtin: the
//! string, array and object builtins here, the others (conversions,
//! comparisons, float arithmetic, files) by a function the caller supplies.
use vstd::prelude::*;

use crate::error::Error;
use crate::lexer::{char_text, chars_of, text_of};
use crate::rows::joined;
use crate::same::{copy_value, copy_values, value_same};
use crate::value::{str_eq, Field, Value};

verus! {

/// How many arguments a builtin accepts, checked at compile time.
#[derive(Debug, Clone, Copy, PartialEq, Eq, Structural)]
pub enum Arity {
    /// Exactly `n` arguments.
    Exact(usize),
    /// Between `min` and `max` arguments, inclusive.
    Range(usize, usize),
    /// `min` or more arguments (variadic).
    AtLeast(usize),
}

/// Whether `argc` satisfies an arity.
pub open spec fn accepts(a: Arity, argc: usize) -> bool {
    match a {
        Arity::Exact(n) => argc == n,
        Arity::Range(min, max) => min <= argc <= max,
        Arity::AtLeast(min) => argc >= min,
    }
}

impl Arity {
    /// Whether `argc` satisfies this arity.
    pub fn ok(&self, argc: usize) -> (r: bool)
        ensures
            r == accepts(*self, argc),
    {
        match self {
            Arity::Exact(n) => argc == *n,
            Arity::Range(min, max) => *min <= argc && argc <= *max,
            Arity::AtLeast(min) => argc >= *min,
        }
    }
}

/// The number of builtins in the registry.
pub const BUILTIN_COUNT: usize = 67;

/// The name of builtin `id`, as written in SQL.
pub open spec fn builtin_name_spec(id: usize) -> Seq<char> {
    match id {
        0 => "typeof"@,
        1 => "coalesce"@,
        2 => "nullif"@,
        3 => "ifnull"@,
        4 => "nvl"@,
        5 => "iif"@,
        6 => "int"@,
        7 => "float"@,
        8 => "string"@,
        9 => "bool"@,
        10 => "number"@,
        11 => "abs"@,
        12 => "ceil"@,
        13 => "ceiling"@,
        14 => "floor"@,
        15 => "trunc"@,
        16 => "round"@,
        17 => "sign"@,
        18 => "sqrt"@,
        19 => "pow"@,
        20 => "power"@,
        21 => "exp"@,
        22 => "ln"@,
        23 => "log10"@,
        24 => "mod"@,
        25 => "greatest"@,
        26 => "least"@,
        27 => "length"@,
        28 => "upper"@,
        29 => "lower"@,
        30 => "trim"@,
        31 => "ltrim"@,
        32 => "rtrim"@,
        33 => "substr"@,
        34 => "substring"@,
        35 => "replace"@,
        36 => "concat"@,
        37 => "concat_ws"@,
        38 => "repeat"@,
        39 => "reverse"@,
        40 => "lpad"@,
        41 => "rpad"@,
        42 => "strpos"@,
        43 => "instr"@,
        44 => "starts_with"@,
        45 => "ends_with"@,
        46 => "contains"@,
        47 => "array_length"@,
        48 => "array_contains"@,
        49 => "array_position"@,
        50 => "array_append"@,
        51 => "array_prepend"@,
        52 => "array_concat"@,
        53 => "array_reverse"@,
        54 => "array_distinct"@,
        55 => "array_to_string"@,
        56 => "array_slice"@,
        57 => "object_keys"@,
        58 => "object_values"@,
        59 => "object_has_key"@,
        60 => "read_csv"@,
        61 => "read_jsonl"@,
        62 => "read_ndjson"@,
        63 => "read_json"@,
        64 => "write_csv"@,
        65 => "write_jsonl"@,
        66 => "write_json"@,
        _ => Seq::empty(),
    }
}

/// The arity of builtin `id`.
pub open spec fn builtin_arity(id: usize) -> Arity {
    match id {
        0 => Arity::Exact(1),
        1 => Arity::AtLeast(1),
        2 => Arity::Exact(2),
        3 => Arity::Exact(2),
        4 => Arity::Exact(2),
        5 => Arity::Exact(3),
        6 => Arity::Exact(1),
        7 => Arity::Exact(1),
        8 => Arity::Exact(1),
        9 => Arity::Exact(1),
        10 => Arity::Exact(1),
        11 => Arity::Exact(1),
        12 => Arity::Exact(1),
        13 => Arity::Exact(1),
        14 => Arity::Exact(1),
        15 => Arity::Exact(1),
        16 => Arity::Range(1, 2),
        17 => Arity::Exact(1),
        18 => Arity::Exact(1),
        19 => Arity::Exact(2),
        20 => Arity::Exact(2),
        21 => Arity::Exact(1),
        22 => Arity::Exact(1),
        23 => Arity::Exact(1),
        24 => Arity::Exact(2),
        25 => Arity::AtLeast(1),
        26 => Arity::AtLeast(1),
        27 => Arity::Exact(1),
        28 => Arity::Exact(1),
        29 => Arity::Exact(1),
        30 => Arity::Exact(1),
        31 => Arity::Exact(1),
        32 => Arity::Exact(1),
        33 => Arity::Range(2, 3),
        34 => Arity::Range(2, 3),
        35 => Arity::Exact(3),
        36 => Arity::AtLeast(1),
        37 => Arity::AtLeast(1),
        38 => Arity::Exact(2),
        39 => Arity::Exact(1),
        40 => Arity::Range(2, 3),
        41 => Arity::Range(2, 3),
        42 => Arity::Exact(2),
        43 => Arity::Exact(2),
        44 => Arity::Exact(2),
        45 => Arity::Exact(2),
        46 => Arity::Exact(2),
        47 => Arity::Exact(1),
        48 => Arity::Exact(2),
        49 => Arity::Exact(2),
        50 => Arity::Exact(2),
        51 => Arity::Exact(2),
        52 => Arity::Exact(2),
        53 => Arity::Exact(1),
        54 => Arity::Exact(1),
        55 => Arity::Exact(2),
        56 => Arity::Exact(3),
        57 => Arity::Exact(1),
        58 => Arity::Exact(1),
        59 => Arity::Exact(2),
        60 => Arity::Range(1, 2),
        61 => Arity::Range(1, 2),
        62 => Arity::Range(1, 2),
        63 => Arity::Range(1, 2),
        64 => Arity::Exact(3),
        65 => Arity::Exact(3),
        66 => Arity::Exact(3),
        _ => Arity::Exact(0),
    }
}

/// Whether builtin `id` is strict: a `null` argument makes the result `null`.
pub open spec fn builtin_strict(id: usize) -> bool {
    match id {
        0 => false,
        1 => false,
        2 => false,
        3 => false,
        4 => false,
        5 => false,
        36 => false,
        37 => false,
        _ => true,
    }
}

/// The name of builtin `id`.
pub fn builtin_name(id: usize) -> (r: &'static str)
    requires
        id < BUILTIN_COUNT,
    ensures
        r@ == builtin_name_spec(id),
{
    match id {
        0 => "typeof",
        1 => "coalesce",
        2 => "nullif",
        3 => "ifnull",
        4 => "nvl",
        5 => "iif",
        6 => "int",
        7 => "float",
        8 => "string",
        9 => "bool",
        10 => "number",
        11 => "abs",
        12 => "ceil",
        13 => "ceiling",
        14 => "floor",
        15 => "trunc",
        16 => "round",
        17 => "sign",
        18 => "sqrt",
        19 => "pow",
        20 => "power",
        21 => "exp",
        22 => "ln",
        23 => "log10",
        24 => "mod",
        25 => "greatest",
        26 => "least",
        27 => "length",
        28 => "upper",
        29 => "lower",
        30 => "trim",
        31 => "ltrim",
        32 => "rtrim",
        33 => "substr",
        34 => "substring",
        35 => "replace",
        36 => "concat",
        37 => "concat_ws",
        38 => "repeat",
        39 => "reverse",
        40 => "lpad",
        41 => "rpad",
        42 => "strpos",
        43 => "instr",
        44 => "starts_with",
        45 => "ends_with",
        46 => "contains",
        47 => "array_length",
        48 => "array_contains",
        49 => "array_position",
        50 => "array_append",
        51 => "array_prepend",
        52 => "array_concat",
        53 => "array_reverse",
        54 => "array_distinct",
        55 => "array_to_string",
        56 => "array_slice",
        57 => "object_keys",
        58 => "object_values",
        59 => "object_has_key",
        60 => "read_csv",
        61 => "read_jsonl",
        62 => "read_ndjson",
        63 => "read_json",
        64 => "write_csv",
        65 => "write_jsonl",
        _ => "write_json",
    }
}

/// The arity of builtin `id`.
pub fn builtin_arity_of(id: usize) -> (r: Arity)
    requires
        id < BUILTIN_COUNT,
    ensures
        r == builtin_arity(id),
{
    match id {
        0 => Arity::Exact(1),
        1 => Arity::AtLeast(1),
        2 => Arity::Exact(2),
        3 => Arity::Exact(2),
        4 => Arity::Exact(2),
        5 => Arity::Exact(3),
        6 => Arity::Exact(1),
        7 => Arity::Exact(1),
        8 => Arity::Exact(1),
        9 => Arity::Exact(1),
        10 => Arity::Exact(1),
        11 => Arity::Exact(1),
        12 => Arity::Exact(1),
        13 => Arity::Exact(1),
        14 => Arity::Exact(1),
        15 => Arity::Exact(1),
        16 => Arity::Range(1, 2),
        17 => Arity::Exact(1),
        18 => Arity::Exact(1),
        19 => Arity::Exact(2),
        20 => Arity::Exact(2),
        21 => Arity::Exact(1),
        22 => Arity::Exact(1),
        23 => Arity::Exact(1),
        24 => Arity::Exact(2),
        25 => Arity::AtLeast(1),
        26 => Arity::AtLeast(1),
        27 => Arity::Exact(1),
        28 => Arity::Exact(1),
        29 => Arity::Exact(1),
        30 => Arity::Exact(1),
        31 => Arity::Exact(1),
        32 => Arity::Exact(1),
        33 => Arity::Range(2, 3),
        34 => Arity::Range(2, 3),
        35 => Arity::Exact(3),
        36 => Arity::AtLeast(1),
        37 => Arity::AtLeast(1),
        38 => Arity::Exact(2),
        39 => Arity::Exact(1),
        40 => Arity::Range(2, 3),
        41 => Arity::Range(2, 3),
        42 => Arity::Exact(2),
        43 => Arity::Exact(2),
        44 => Arity::Exact(2),
        45 => Arity::Exact(2),
        46 => Arity::Exact(2),
        47 => Arity::Exact(1),
        48 => Arity::Exact(2),
        49 => Arity::Exact(2),
        50 => Arity::Exact(2),
        51 => Arity::Exact(2),
        52 => Arity::Exact(2),
        53 => Arity::Exact(1),
        54 => Arity::Exact(1),
        55 => Arity::Exact(2),
        56 => Arity::Exact(3),
        57 => Arity::Exact(1),
        58 => Arity::Exact(1),
        59 => Arity::Exact(2),
        60 => Arity::Range(1, 2),
        61 => Arity::Range(1, 2),
        62 => Arity::Range(1, 2),
        63 => Arity::Range(1, 2),
        64 => Arity::Exact(3),
        65 => Arity::Exact(3),
        _ => Arity::Exact(3),
    }
}


/// A builtin name that handles `null` arguments itself: the null tests and
/// choices (`typeof`, `coalesce`, `nullif`, `ifnull`, `nvl`, `iif`) and the
/// joins that skip nulls (`concat`, `concat_ws`).
pub open spec fn null_aware_name(n: Seq<char>) -> bool {
    n == "typeof"@ || n == "coalesce"@ || n == "nullif"@ || n == "ifnull"@ || n == "nvl"@
        || n == "iif"@ || n == "concat"@ || n == "concat_ws"@
}

/// Exactly the null-handling builtins are not strict: `iif(true, 1, null)`
/// reaches `iif`, while every other builtin answers `null` to a `null`
/// argument.
pub proof fn law_strict_builtins(id: usize)
    requires
        id < BUILTIN_COUNT,
    ensures
        !builtin_strict(id) <==> null_aware_name(builtin_name_spec(id)),
{
    reveal_strlit("abs");
    reveal_strlit("array_append");
    reveal_strlit("array_concat");
    reveal_strlit("array_contains");
    reveal_strlit("array_distinct");
    reveal_strlit("array_length");
    reveal_strlit("array_position");
    reveal_strlit("array_prepend");
    reveal_strlit("array_reverse");
    reveal_strlit("array_slice");
    reveal_strlit("array_to_string");
    reveal_strlit("bool");
    reveal_strlit("ceil");
    reveal_strlit("ceiling");
    reveal_strlit("coalesce");
    reveal_strlit("concat");
    reveal_strlit("concat_ws");
    reveal_strlit("contains");
    reveal_strlit("ends_with");
    reveal_strlit("exp");
    reveal_strlit("float");
    reveal_strlit("floor");
    reveal_strlit("greatest");
    reveal_strlit("ifnull");
    reveal_strlit("iif");
    reveal_strlit("instr");
    reveal_strlit("int");
    reveal_strlit("least");
    reveal_strlit("length");
    reveal_strlit("ln");
    reveal_strlit("log10");
    reveal_strlit("lower");
    reveal_strlit("lpad");
    reveal_strlit("ltrim");
    reveal_strlit("mod");
    reveal_strlit("nullif");
    reveal_strlit("number");
    reveal_strlit("nvl");
    reveal_strlit("object_has_key");
    reveal_strlit("object_keys");
    reveal_strlit("object_values");
    reveal_strlit("pow");
    reveal_strlit("power");
    reveal_strlit("read_csv");
    reveal_strlit("read_json");
    reveal_strlit("read_jsonl");
    reveal_strlit("read_ndjson");
    reveal_strlit("repeat");
    reveal_strlit("replace");
    reveal_strlit("reverse");
    reveal_strlit("round");
    reveal_strlit("rpad");
    reveal_strlit("rtrim");
    reveal_strlit("sign");
    reveal_strlit("sqrt");
    reveal_strlit("starts_with");
    reveal_strlit("string");
    reveal_strlit("strpos");
    reveal_strlit("substr");
    reveal_strlit("substring");
    reveal_strlit("trim");
    reveal_strlit("trunc");
    reveal_strlit("typeof");
    reveal_strlit("upper");
    reveal_strlit("write_csv");
    reveal_strlit("write_json");
    reveal_strlit("write_jsonl");
    match id {
        0 => {
            assert("typeof"@.len() != "coalesce"@.len());
            assert("typeof"@[0] != "nullif"@[0]);
            assert("typeof"@[0] != "ifnull"@[0]);
            assert("typeof"@.len() != "nvl"@.len());
            assert("typeof"@.len() != "iif"@.len());
            assert("typeof"@[0] != "concat"@[0]);
            assert("typeof"@.len() != "concat_ws"@.len());
        },
        1 => {
            assert("coalesce"@.len() != "typeof"@.len());
            assert("coalesce"@.len() != "nullif"@.len());
            assert("coalesce"@.len() != "ifnull"@.len());
            assert("coalesce"@.len() != "nvl"@.len());
            assert("coalesce"@.len() != "iif"@.len());
            assert("coalesce"@.len() != "concat"@.len());
            assert("coalesce"@.len() != "concat_ws"@.len());
        },
        2 => {
            assert("nullif"@[0] != "typeof"@[0]);
            assert("nullif"@.len() != "coalesce"@.len());
            assert("nullif"@[0] != "ifnull"@[0]);
            assert("nullif"@.len() != "nvl"@.len());
            assert("nullif"@.len() != "iif"@.len());
            assert("nullif"@[0] != "concat"@[0]);
            assert("nullif"@.len() != "concat_ws"@.len());
        },
        3 => {
            assert("ifnull"@[0] != "typeof"@[0]);
            assert("ifnull"@.len() != "coalesce"@.len());
            assert("ifnull"@[0] != "nullif"@[0]);
            assert("ifnull"@.len() != "nvl"@.len());
            assert("ifnull"@.len() != "iif"@.len());
            assert("ifnull"@[0] != "concat"@[0]);
            assert("ifnull"@.len() != "concat_ws"@.len());
        },
        4 => {
            assert("nvl"@.len() != "typeof"@.len());
            assert("nvl"@.len() != "coalesce"@.len());
            assert("nvl"@.len() != "nullif"@.len());
            assert("nvl"@.len() != "ifnull"@.len());
            assert("nvl"@[0] != "iif"@[0]);
            assert("nvl"@.len() != "concat"@.len());
            assert("nvl"@.len() != "concat_ws"@.len());
        },
        5 => {
            assert("iif"@.len() != "typeof"@.len());
            assert("iif"@.len() != "coalesce"@.len());
            assert("iif"@.len() != "nullif"@.len());
            assert("iif"@.len() != "ifnull"@.len());
            assert("iif"@[0] != "nvl"@[0]);
            assert("iif"@.len() != "concat"@.len());
            assert("iif"@.len() != "concat_ws"@.len());
        },
        6 => {
            assert("int"@.len() != "typeof"@.len());
            assert("int"@.len() != "coalesce"@.len());
            assert("int"@.len() != "nullif"@.len());
            assert("int"@.len() != "ifnull"@.len());
            assert("int"@[0] != "nvl"@[0]);
            assert("int"@[1] != "iif"@[1]);
            assert("int"@.len() != "concat"@.len());
            assert("int"@.len() != "concat_ws"@.len());
        },
        7 => {
            assert("float"@.len() != "typeof"@.len());
            assert("float"@.len() != "coalesce"@.len());
            assert("float"@.len() != "nullif"@.len());
            assert("float"@.len() != "ifnull"@.len());
            assert("float"@.len() != "nvl"@.len());
            assert("float"@.len() != "iif"@.len());
            assert("float"@.len() != "concat"@.len());
            assert("float"@.len() != "concat_ws"@.len());
        },
        8 => {
            assert("string"@[0] != "typeof"@[0]);
            assert("string"@.len() != "coalesce"@.len());
            assert("string"@[0] != "nullif"@[0]);
            assert("string"@[0] != "ifnull"@[0]);
            assert("string"@.len() != "nvl"@.len());
            assert("string"@.len() != "iif"@.len());
            assert("string"@[0] != "concat"@[0]);
            assert("string"@.len() != "concat_ws"@.len());
        },
        9 => {
            assert("bool"@.len() != "typeof"@.len());
            assert("bool"@.len() != "coalesce"@.len());
            assert("bool"@.len() != "nullif"@.len());
            assert("bool"@.len() != "ifnull"@.len());
            assert("bool"@.len() != "nvl"@.len());
            assert("bool"@.len() != "iif"@.len());
            assert("bool"@.len() != "concat"@.len());
            assert("bool"@.len() != "concat_ws"@.len());
        },
        10 => {
            assert("number"@[0] != "typeof"@[0]);
            assert("number"@.len() != "coalesce"@.len());
            assert("number"@[2] != "nullif"@[2]);
            assert("number"@[0] != "ifnull"@[0]);
            assert("number"@.len() != "nvl"@.len());
            assert("number"@.len() != "iif"@.len());
            assert("number"@[0] != "concat"@[0]);
            assert("number"@.len() != "concat_ws"@.len());
        },
        11 => {
            assert("abs"@.len() != "typeof"@.len());
            assert("abs"@.len() != "coalesce"@.len());
            assert("abs"@.len() != "nullif"@.len());
            assert("abs"@.len() != "ifnull"@.len());
            assert("abs"@[0] != "nvl"@[0]);
            assert("abs"@[0] != "iif"@[0]);
            assert("abs"@.len() != "concat"@.len());
            assert("abs"@.len() != "concat_ws"@.len());
        },
        12 => {
            assert("ceil"@.len() != "typeof"@.len());
            assert("ceil"@.len() != "coalesce"@.len());
            assert("ceil"@.len() != "nullif"@.len());
            assert("ceil"@.len() != "ifnull"@.len());
            assert("ceil"@.len() != "nvl"@.len());
            assert("ceil"@.len() != "iif"@.len());
            assert("ceil"@.len() != "concat"@.len());
            assert("ceil"@.len() != "concat_ws"@.len());
        },
        13 => {
            assert("ceiling"@.len() != "typeof"@.len());
            assert("ceiling"@.len() != "coalesce"@.len());
            assert("ceiling"@.len() != "nullif"@.len());
            assert("ceiling"@.len() != "ifnull"@.len());
            assert("ceiling"@.len() != "nvl"@.len());
            assert("ceiling"@.len() != "iif"@.len());
            assert("ceiling"@.len() != "concat"@.len());
            assert("ceiling"@.len() != "concat_ws"@.len());
        },
        14 => {
            assert("floor"@.len() != "typeof"@.len());
            assert("floor"@.len() != "coalesce"@.len());
            assert("floor"@.len() != "nullif"@.len());
            assert("floor"@.len() != "ifnull"@.len());
            assert("floor"@.len() != "nvl"@.len());
            assert("floor"@.len() != "iif"@.len());
            assert("floor"@.len() != "concat"@.len());
            assert("floor"@.len() != "concat_ws"@.len());
        },
        15 => {
            assert("trunc"@.len() != "typeof"@.len());
            assert("trunc"@.len() != "coalesce"@.len());
            assert("trunc"@.len() != "nullif"@.len());
            assert("trunc"@.len() != "ifnull"@.len());
            assert("trunc"@.len() != "nvl"@.len());
            assert("trunc"@.len() != "iif"@.len());
            assert("trunc"@.len() != "concat"@.len());
            assert("trunc"@.len() != "concat_ws"@.len());
        },
        16 => {
            assert("round"@.len() != "typeof"@.len());
            assert("round"@.len() != "coalesce"@.len());
            assert("round"@.len() != "nullif"@.len());
            assert("round"@.len() != "ifnull"@.len());
            assert("round"@.len() != "nvl"@.len());
            assert("round"@.len() != "iif"@.len());
            assert("round"@.len() != "concat"@.len());
            assert("round"@.len() != "concat_ws"@.len());
        },
        17 => {
            assert("sign"@.len() != "typeof"@.len());
            assert("sign"@.len() != "coalesce"@.len());
            assert("sign"@.len() != "nullif"@.len());
            assert("sign"@.len() != "ifnull"@.len());
            assert("sign"@.len() != "nvl"@.len());
            assert("sign"@.len() != "iif"@.len());
            assert("sign"@.len() != "concat"@.len());
            assert("sign"@.len() != "concat_ws"@.len());
        },
        18 => {
            assert("sqrt"@.len() != "typeof"@.len());
            assert("sqrt"@.len() != "coalesce"@.len());
            assert("sqrt"@.len() != "nullif"@.len());
            assert("sqrt"@.len() != "ifnull"@.len());
            assert("sqrt"@.len() != "nvl"@.len());
            assert("sqrt"@.len() != "iif"@.len());
            assert("sqrt"@.len() != "concat"@.len());
            assert("sqrt"@.len() != "concat_ws"@.len());
        },
        19 => {
            assert("pow"@.len() != "typeof"@.len());
            assert("pow"@.len() != "coalesce"@.len());
            assert("pow"@.len() != "nullif"@.len());
            assert("pow"@.len() != "ifnull"@.len());
            assert("pow"@[0] != "nvl"@[0]);
            assert("pow"@[0] != "iif"@[0]);
            assert("pow"@.len() != "concat"@.len());
            assert("pow"@.len() != "concat_ws"@.len());
        },
        20 => {
            assert("power"@.len() != "typeof"@.len());
            assert("power"@.len() != "coalesce"@.len());
            assert("power"@.len() != "nullif"@.len());
            assert("power"@.len() != "ifnull"@.len());
            assert("power"@.len() != "nvl"@.len());
            assert("power"@.len() != "iif"@.len());
            assert("power"@.len() != "concat"@.len());
            assert("power"@.len() != "concat_ws"@.len());
        },
        21 => {
            assert("exp"@.len() != "typeof"@.len());
            assert("exp"@.len() != "coalesce"@.len());
            assert("exp"@.len() != "nullif"@.len());
            assert("exp"@.len() != "ifnull"@.len());
            assert("exp"@[0] != "nvl"@[0]);
            assert("exp"@[0] != "iif"@[0]);
            assert("exp"@.len() != "concat"@.len());
            assert("exp"@.len() != "concat_ws"@.len());
        },
        22 => {
            assert("ln"@.len() != "typeof"@.len());
            assert("ln"@.len() != "coalesce"@.len());
            assert("ln"@.len() != "nullif"@.len());
            assert("ln"@.len() != "ifnull"@.len());
            assert("ln"@.len() != "nvl"@.len());
            assert("ln"@.len() != "iif"@.len());
            assert("ln"@.len() != "concat"@.len());
            assert("ln"@.len() != "concat_ws"@.len());
        },
        23 => {
            assert("log10"@.len() != "typeof"@.len());
            assert("log10"@.len() != "coalesce"@.len());
            assert("log10"@.len() != "nullif"@.len());
            assert("log10"@.len() != "ifnull"@.len());
            assert("log10"@.len() != "nvl"@.len());
            assert("log10"@.len() != "iif"@.len());
            assert("log10"@.len() != "concat"@.len());
            assert("log10"@.len() != "concat_ws"@.len());
        },
        24 => {
            assert("mod"@.len() != "typeof"@.len());
            assert("mod"@.len() != "coalesce"@.len());
            assert("mod"@.len() != "nullif"@.len());
            assert("mod"@.len() != "ifnull"@.len());
            assert("mod"@[0] != "nvl"@[0]);
            assert("mod"@[0] != "iif"@[0]);
            assert("mod"@.len() != "concat"@.len());
            assert("mod"@.len() != "concat_ws"@.len());
        },
        25 => {
            assert("greatest"@.len() != "typeof"@.len());
            assert("greatest"@[0] != "coalesce"@[0]);
            assert("greatest"@.len() != "nullif"@.len());
            assert("greatest"@.len() != "ifnull"@.len());
            assert("greatest"@.len() != "nvl"@.len());
            assert("greatest"@.len() != "iif"@.len());
            assert("greatest"@.len() != "concat"@.len());
            assert("greatest"@.len() != "concat_ws"@.len());
        },
        26 => {
            assert("least"@.len() != "typeof"@.len());
            assert("least"@.len() != "coalesce"@.len());
            assert("least"@.len() != "nullif"@.len());
            assert("least"@.len() != "ifnull"@.len());
            assert("least"@.len() != "nvl"@.len());
            assert("least"@.len() != "iif"@.len());
            assert("least"@.len() != "concat"@.len());
            assert("least"@.len() != "concat_ws"@.len());
        },
        27 => {
            assert("length"@[0] != "typeof"@[0]);
            assert("length"@.len() != "coalesce"@.len());
            assert("length"@[0] != "nullif"@[0]);
            assert("length"@[0] != "ifnull"@[0]);
            assert("length"@.len() != "nvl"@.len());
            assert("length"@.len() != "iif"@.len());
            assert("length"@[0] != "concat"@[0]);
            assert("length"@.len() != "concat_ws"@.len());
        },
        28 => {
            assert("upper"@.len() != "typeof"@.len());
            assert("upper"@.len() != "coalesce"@.len());
            assert("upper"@.len() != "nullif"@.len());
            assert("upper"@.len() != "ifnull"@.len());
            assert("upper"@.len() != "nvl"@.len());
            assert("upper"@.len() != "iif"@.len());
            assert("upper"@.len() != "concat"@.len());
            assert("upper"@.len() != "concat_ws"@.len());
        },
        29 => {
            assert("lower"@.len() != "typeof"@.len());
            assert("lower"@.len() != "coalesce"@.len());
            assert("lower"@.len() != "nullif"@.len());
            assert("lower"@.len() != "ifnull"@.len());
            assert("lower"@.len() != "nvl"@.len());
            assert("lower"@.len() != "iif"@.len());
            assert("lower"@.len() != "concat"@.len());
            assert("lower"@.len() != "concat_ws"@.len());
        },
        30 => {
            assert("trim"@.len() != "typeof"@.len());
            assert("trim"@.len() != "coalesce"@.len());
            assert("trim"@.len() != "nullif"@.len());
            assert("trim"@.len() != "ifnull"@.len());
            assert("trim"@.len() != "nvl"@.len());
            assert("trim"@.len() != "iif"@.len());
            assert("trim"@.len() != "concat"@.len());
            assert("trim"@.len() != "concat_ws"@.len());
        },
        31 => {
            assert("ltrim"@.len() != "typeof"@.len());
            assert("ltrim"@.len() != "coalesce"@.len());
            assert("ltrim"@.len() != "nullif"@.len());
            assert("ltrim"@.len() != "ifnull"@.len());
            assert("ltrim"@.len() != "nvl"@.len());
            assert("ltrim"@.len() != "iif"@.len());
            assert("ltrim"@.len() != "concat"@.len());
            assert("ltrim"@.len() != "concat_ws"@.len());
        },
        32 => {
            assert("rtrim"@.len() != "typeof"@.len());
            assert("rtrim"@.len() != "coalesce"@.len());
            assert("rtrim"@.len() != "nullif"@.len());
            assert("rtrim"@.len() != "ifnull"@.len());
            assert("rtrim"@.len() != "nvl"@.len());
            assert("rtrim"@.len() != "iif"@.len());
            assert("rtrim"@.len() != "concat"@.len());
            assert("rtrim"@.len() != "concat_ws"@.len());
        },
        33 => {
            assert("substr"@[0] != "typeof"@[0]);
            assert("substr"@.len() != "coalesce"@.len());
            assert("substr"@[0] != "nullif"@[0]);
            assert("substr"@[0] != "ifnull"@[0]);
            assert("substr"@.len() != "nvl"@.len());
            assert("substr"@.len() != "iif"@.len());
            assert("substr"@[0] != "concat"@[0]);
            assert("substr"@.len() != "concat_ws"@.len());
        },
        34 => {
            assert("substring"@.len() != "typeof"@.len());
            assert("substring"@.len() != "coalesce"@.len());
            assert("substring"@.len() != "nullif"@.len());
            assert("substring"@.len() != "ifnull"@.len());
            assert("substring"@.len() != "nvl"@.len());
            assert("substring"@.len() != "iif"@.len());
            assert("substring"@.len() != "concat"@.len());
            assert("substring"@[0] != "concat_ws"@[0]);
        },
        35 => {
            assert("replace"@.len() != "typeof"@.len());
            assert("replace"@.len() != "coalesce"@.len());
            assert("replace"@.len() != "nullif"@.len());
            assert("replace"@.len() != "ifnull"@.len());
            assert("replace"@.len() != "nvl"@.len());
            assert("replace"@.len() != "iif"@.len());
            assert("replace"@.len() != "concat"@.len());
            assert("replace"@.len() != "concat_ws"@.len());
        },
        36 => {
            assert("concat"@[0] != "typeof"@[0]);
            assert("concat"@.len() != "coalesce"@.len());
            assert("concat"@[0] != "nullif"@[0]);
            assert("concat"@[0] != "ifnull"@[0]);
            assert("concat"@.len() != "nvl"@.len());
            assert("concat"@.len() != "iif"@.len());
            assert("concat"@.len() != "concat_ws"@.len());
        },
        37 => {
            assert("concat_ws"@.len() != "typeof"@.len());
            assert("concat_ws"@.len() != "coalesce"@.len());
            assert("concat_ws"@.len() != "nullif"@.len());
            assert("concat_ws"@.len() != "ifnull"@.len());
            assert("concat_ws"@.len() != "nvl"@.len());
            assert("concat_ws"@.len() != "iif"@.len());
            assert("concat_ws"@.len() != "concat"@.len());
        },
        38 => {
            assert("repeat"@[0] != "typeof"@[0]);
            assert("repeat"@.len() != "coalesce"@.len());
            assert("repeat"@[0] != "nullif"@[0]);
            assert("repeat"@[0] != "ifnull"@[0]);
            assert("repeat"@.len() != "nvl"@.len());
            assert("repeat"@.len() != "iif"@.len());
            assert("repeat"@[0] != "concat"@[0]);
            assert("repeat"@.len() != "concat_ws"@.len());
        },
        39 => {
            assert("reverse"@.len() != "typeof"@.len());
            assert("reverse"@.len() != "coalesce"@.len());
            assert("reverse"@.len() != "nullif"@.len());
            assert("reverse"@.len() != "ifnull"@.len());
            assert("reverse"@.len() != "nvl"@.len());
            assert("reverse"@.len() != "iif"@.len());
            assert("reverse"@.len() != "concat"@.len());
            assert("reverse"@.len() != "concat_ws"@.len());
        },
        40 => {
            assert("lpad"@.len() != "typeof"@.len());
            assert("lpad"@.len() != "coalesce"@.len());
            assert("lpad"@.len() != "nullif"@.len());
            assert("lpad"@.len() != "ifnull"@.len());
            assert("lpad"@.len() != "nvl"@.len());
            assert("lpad"@.len() != "iif"@.len());
            assert("lpad"@.len() != "concat"@.len());
            assert("lpad"@.len() != "concat_ws"@.len());
        },
        41 => {
            assert("rpad"@.len() != "typeof"@.len());
            assert("rpad"@.len() != "coalesce"@.len());
            assert("rpad"@.len() != "nullif"@.len());
            assert("rpad"@.len() != "ifnull"@.len());
            assert("rpad"@.len() != "nvl"@.len());
            assert("rpad"@.len() != "iif"@.len());
            assert("rpad"@.len() != "concat"@.len());
            assert("rpad"@.len() != "concat_ws"@.len());
        },
        42 => {
            assert("strpos"@[0] != "typeof"@[0]);
            assert("strpos"@.len() != "coalesce"@.len());
            assert("strpos"@[0] != "nullif"@[0]);
            assert("strpos"@[0] != "ifnull"@[0]);
            assert("strpos"@.len() != "nvl"@.len());
            assert("strpos"@.len() != "iif"@.len());
            assert("strpos"@[0] != "concat"@[0]);
            assert("strpos"@.len() != "concat_ws"@.len());
        },
        43 => {
            assert("instr"@.len() != "typeof"@.len());
            assert("instr"@.len() != "coalesce"@.len());
            assert("instr"@.len() != "nullif"@.len());
            assert("instr"@.len() != "ifnull"@.len());
            assert("instr"@.len() != "nvl"@.len());
            assert("instr"@.len() != "iif"@.len());
            assert("instr"@.len() != "concat"@.len());
            assert("instr"@.len() != "concat_ws"@.len());
        },
        44 => {
            assert("starts_with"@.len() != "typeof"@.len());
            assert("starts_with"@.len() != "coalesce"@.len());
            assert("starts_with"@.len() != "nullif"@.len());
            assert("starts_with"@.len() != "ifnull"@.len());
            assert("starts_with"@.len() != "nvl"@.len());
            assert("starts_with"@.len() != "iif"@.len());
            assert("starts_with"@.len() != "concat"@.len());
            assert("starts_with"@.len() != "concat_ws"@.len());
        },
        45 => {
            assert("ends_with"@.len() != "typeof"@.len());
            assert("ends_with"@.len() != "coalesce"@.len());
            assert("ends_with"@.len() != "nullif"@.len());
            assert("ends_with"@.len() != "ifnull"@.len());
            assert("ends_with"@.len() != "nvl"@.len());
            assert("ends_with"@.len() != "iif"@.len());
            assert("ends_with"@.len() != "concat"@.len());
            assert("ends_with"@[0] != "concat_ws"@[0]);
        },
        46 => {
            assert("contains"@.len() != "typeof"@.len());
            assert("contains"@[2] != "coalesce"@[2]);
            assert("contains"@.len() != "nullif"@.len());
            assert("contains"@.len() != "ifnull"@.len());
            assert("contains"@.len() != "nvl"@.len());
            assert("contains"@.len() != "iif"@.len());
            assert("contains"@.len() != "concat"@.len());
            assert("contains"@.len() != "concat_ws"@.len());
        },
        47 => {
            assert("array_length"@.len() != "typeof"@.len());
            assert("array_length"@.len() != "coalesce"@.len());
            assert("array_length"@.len() != "nullif"@.len());
            assert("array_length"@.len() != "ifnull"@.len());
            assert("array_length"@.len() != "nvl"@.len());
            assert("array_length"@.len() != "iif"@.len());
            assert("array_length"@.len() != "concat"@.len());
            assert("array_length"@.len() != "concat_ws"@.len());
        },
        48 => {
            assert("array_contains"@.len() != "typeof"@.len());
            assert("array_contains"@.len() != "coalesce"@.len());
            assert("array_contains"@.len() != "nullif"@.len());
            assert("array_contains"@.len() != "ifnull"@.len());
            assert("array_contains"@.len() != "nvl"@.len());
            assert("array_contains"@.len() != "iif"@.len());
            assert("array_contains"@.len() != "concat"@.len());
            assert("array_contains"@.len() != "concat_ws"@.len());
        },
        49 => {
            assert("array_position"@.len() != "typeof"@.len());
            assert("array_position"@.len() != "coalesce"@.len());
            assert("array_position"@.len() != "nullif"@.len());
            assert("array_position"@.len() != "ifnull"@.len());
            assert("array_position"@.len() != "nvl"@.len());
            assert("array_position"@.len() != "iif"@.len());
            assert("array_position"@.len() != "concat"@.len());
            assert("array_position"@.len() != "concat_ws"@.len());
        },
        50 => {
            assert("array_append"@.len() != "typeof"@.len());
            assert("array_append"@.len() != "coalesce"@.len());
            assert("array_append"@.len() != "nullif"@.len());
            assert("array_append"@.len() != "ifnull"@.len());
            assert("array_append"@.len() != "nvl"@.len());
            assert("array_append"@.len() != "iif"@.len());
            assert("array_append"@.len() != "concat"@.len());
            assert("array_append"@.len() != "concat_ws"@.len());
        },
        51 => {
            assert("array_prepend"@.len() != "typeof"@.len());
            assert("array_prepend"@.len() != "coalesce"@.len());
            assert("array_prepend"@.len() != "nullif"@.len());
            assert("array_prepend"@.len() != "ifnull"@.len());
            assert("array_prepend"@.len() != "nvl"@.len());
            assert("array_prepend"@.len() != "iif"@.len());
            assert("array_prepend"@.len() != "concat"@.len());
            assert("array_prepend"@.len() != "concat_ws"@.len());
        },
        52 => {
            assert("array_concat"@.len() != "typeof"@.len());
            assert("array_concat"@.len() != "coalesce"@.len());
            assert("array_concat"@.len() != "nullif"@.len());
            assert("array_concat"@.len() != "ifnull"@.len());
            assert("array_concat"@.len() != "nvl"@.len());
            assert("array_concat"@.len() != "iif"@.len());
            assert("array_concat"@.len() != "concat"@.len());
            assert("array_concat"@.len() != "concat_ws"@.len());
        },
        53 => {
            assert("array_reverse"@.len() != "typeof"@.len());
            assert("array_reverse"@.len() != "coalesce"@.len());
            assert("array_reverse"@.len() != "nullif"@.len());
            assert("array_reverse"@.len() != "ifnull"@.len());
            assert("array_reverse"@.len() != "nvl"@.len());
            assert("array_reverse"@.len() != "iif"@.len());
            assert("array_reverse"@.len() != "concat"@.len());
            assert("array_reverse"@.len() != "concat_ws"@.len());
        },
        54 => {
            assert("array_distinct"@.len() != "typeof"@.len());
            assert("array_distinct"@.len() != "coalesce"@.len());
            assert("array_distinct"@.len() != "nullif"@.len());
            assert("array_distinct"@.len() != "ifnull"@.len());
            assert("array_distinct"@.len() != "nvl"@.len());
            assert("array_distinct"@.len() != "iif"@.len());
            assert("array_distinct"@.len() != "concat"@.len());
            assert("array_distinct"@.len() != "concat_ws"@.len());
        },
        55 => {
            assert("array_to_string"@.len() != "typeof"@.len());
            assert("array_to_string"@.len() != "coalesce"@.len());
            assert("array_to_string"@.len() != "nullif"@.len());
            assert("array_to_string"@.len() != "ifnull"@.len());
            assert("array_to_string"@.len() != "nvl"@.len());
            assert("array_to_string"@.len() != "iif"@.len());
            assert("array_to_string"@.len() != "concat"@.len());
            assert("array_to_string"@.len() != "concat_ws"@.len());
        },
        56 => {
            assert("array_slice"@.len() != "typeof"@.len());
            assert("array_slice"@.len() != "coalesce"@.len());
            assert("array_slice"@.len() != "nullif"@.len());
            assert("array_slice"@.len() != "ifnull"@.len());
            assert("array_slice"@.len() != "nvl"@.len());
            assert("array_slice"@.len() != "iif"@.len());
            assert("array_slice"@.len() != "concat"@.len());
            assert("array_slice"@.len() != "concat_ws"@.len());
        },
        57 => {
            assert("object_keys"@.len() != "typeof"@.len());
            assert("object_keys"@.len() != "coalesce"@.len());
            assert("object_keys"@.len() != "nullif"@.len());
            assert("object_keys"@.len() != "ifnull"@.len());
            assert("object_keys"@.len() != "nvl"@.len());
            assert("object_keys"@.len() != "iif"@.len());
            assert("object_keys"@.len() != "concat"@.len());
            assert("object_keys"@.len() != "concat_ws"@.len());
        },
        58 => {
            assert("object_values"@.len() != "typeof"@.len());
            assert("object_values"@.len() != "coalesce"@.len());
            assert("object_values"@.len() != "nullif"@.len());
            assert("object_values"@.len() != "ifnull"@.len());
            assert("object_values"@.len() != "nvl"@.len());
            assert("object_values"@.len() != "iif"@.len());
            assert("object_values"@.len() != "concat"@.len());
            assert("object_values"@.len() != "concat_ws"@.len());
        },
        59 => {
            assert("object_has_key"@.len() != "typeof"@.len());
            assert("object_has_key"@.len() != "coalesce"@.len());
            assert("object_has_key"@.len() != "nullif"@.len());
            assert("object_has_key"@.len() != "ifnull"@.len());
            assert("object_has_key"@.len() != "nvl"@.len());
            assert("object_has_key"@.len() != "iif"@.len());
            assert("object_has_key"@.len() != "concat"@.len());
            assert("object_has_key"@.len() != "concat_ws"@.len());
        },
        60 => {
            assert("read_csv"@.len() != "typeof"@.len());
            assert("read_csv"@[0] != "coalesce"@[0]);
            assert("read_csv"@.len() != "nullif"@.len());
            assert("read_csv"@.len() != "ifnull"@.len());
            assert("read_csv"@.len() != "nvl"@.len());
            assert("read_csv"@.len() != "iif"@.len());
            assert("read_csv"@.len() != "concat"@.len());
            assert("read_csv"@.len() != "concat_ws"@.len());
        },
        61 => {
            assert("read_jsonl"@.len() != "typeof"@.len());
            assert("read_jsonl"@.len() != "coalesce"@.len());
            assert("read_jsonl"@.len() != "nullif"@.len());
            assert("read_jsonl"@.len() != "ifnull"@.len());
            assert("read_jsonl"@.len() != "nvl"@.len());
            assert("read_jsonl"@.len() != "iif"@.len());
            assert("read_jsonl"@.len() != "concat"@.len());
            assert("read_jsonl"@.len() != "concat_ws"@.len());
        },
        62 => {
            assert("read_ndjson"@.len() != "typeof"@.len());
            assert("read_ndjson"@.len() != "coalesce"@.len());
            assert("read_ndjson"@.len() != "nullif"@.len());
            assert("read_ndjson"@.len() != "ifnull"@.len());
            assert("read_ndjson"@.len() != "nvl"@.len());
            assert("read_ndjson"@.len() != "iif"@.len());
            assert("read_ndjson"@.len() != "concat"@.len());
            assert("read_ndjson"@.len() != "concat_ws"@.len());
        },
        63 => {
            assert("read_json"@.len() != "typeof"@.len());
            assert("read_json"@.len() != "coalesce"@.len());
            assert("read_json"@.len() != "nullif"@.len());
            assert("read_json"@.len() != "ifnull"@.len());
            assert("read_json"@.len() != "nvl"@.len());
            assert("read_json"@.len() != "iif"@.len());
            assert("read_json"@.len() != "concat"@.len());
            assert("read_json"@[0] != "concat_ws"@[0]);
        },
        64 => {
            assert("write_csv"@.len() != "typeof"@.len());
            assert("write_csv"@.len() != "coalesce"@.len());
            assert("write_csv"@.len() != "nullif"@.len());
            assert("write_csv"@.len() != "ifnull"@.len());
            assert("write_csv"@.len() != "nvl"@.len());
            assert("write_csv"@.len() != "iif"@.len());
            assert("write_csv"@.len() != "concat"@.len());
            assert("write_csv"@[0] != "concat_ws"@[0]);
        },
        65 => {
            assert("write_jsonl"@.len() != "typeof"@.len());
            assert("write_jsonl"@.len() != "coalesce"@.len());
            assert("write_jsonl"@.len() != "nullif"@.len());
            assert("write_jsonl"@.len() != "ifnull"@.len());
            assert("write_jsonl"@.len() != "nvl"@.len());
            assert("write_jsonl"@.len() != "iif"@.len());
            assert("write_jsonl"@.len() != "concat"@.len());
            assert("write_jsonl"@.len() != "concat_ws"@.len());
        },
        66 => {
            assert("write_json"@.len() != "typeof"@.len());
            assert("write_json"@.len() != "coalesce"@.len());
            assert("write_json"@.len() != "nullif"@.len());
            assert("write_json"@.len() != "ifnull"@.len());
            assert("write_json"@.len() != "nvl"@.len());
            assert("write_json"@.len() != "iif"@.len());
            assert("write_json"@.len() != "concat"@.len());
            assert("write_json"@.len() != "concat_ws"@.len());
        },
        _ => {},
    }
}

/// Whether builtin `id` is strict.
pub fn is_strict(id: usize) -> (r: bool)
    requires
        id < BUILTIN_COUNT,
    ensures
        r == builtin_strict(id),
{
    match id {
        0 => false,
        1 => false,
        2 => false,
        3 => false,
        4 => false,
        5 => false,
        36 => false,
        37 => false,
        _ => true,
    }
}

/// Resolves a builtin by name to its registry index, or `None` if undefined:
/// the first entry with that name.
pub fn lookup(name: &str) -> (r: Option<usize>)
    ensures
        match r {
            Some(id) => {
                &&& id < BUILTIN_COUNT
                &&& builtin_name_spec(id) == name@
                &&& forall|j: usize| j < id ==> builtin_name_spec(j) != name@
            },
            None => forall|j: usize| j < BUILTIN_COUNT ==> builtin_name_spec(j) != name@,
        },
{
    let mut i: usize = 0;
    while i < BUILTIN_COUNT
        invariant
            i <= BUILTIN_COUNT,
            forall|j: usize| j < i ==> builtin_name_spec(j) != name@,
        decreases BUILTIN_COUNT - i,
    {
        if str_eq(builtin_name(i), name) {
            return Some(i);
        }
        i = i + 1;
    }
    None
}

/// Whether `argc` satisfies builtin `id`'s arity (a compile-time check).
pub fn arity_ok(id: usize, argc: usize) -> (r: bool)
    requires
        id < BUILTIN_COUNT,
    ensures
        r == accepts(builtin_arity(id), argc),
{
    builtin_arity_of(id).ok(argc)
}


/// Whether some argument is `null`.
pub open spec fn has_null(args: Seq<Value>) -> bool {
    exists|i: int| 0 <= i < args.len() && (#[trigger] args[i]) is Null
}

/// `a` and `b` hold the same values, position by position.
pub open spec fn same_seq(a: Seq<Value>, b: Seq<Value>) -> bool {
    a.len() == b.len() && forall|i: int| 0 <= i < a.len() ==> value_same(#[trigger] a[i], b[i])
}

/// `r` is a success holding a value the same as `v`.
pub open spec fn gives_value(r: Result<Value, Error>, v: Value) -> bool {
    r matches Ok(w) && value_same(w, v)
}

/// `r` is a success holding an array of the values `s`.
pub open spec fn gives_array(r: Result<Value, Error>, s: Seq<Value>) -> bool {
    r matches Ok(Value::Array(out)) && same_seq(out@, s)
}

/// `v` is the string `t`.
pub open spec fn is_text(v: Value, t: Seq<char>) -> bool {
    v matches Value::String(s) && s@ == t
}

/// `r` is a success holding the string `t`.
pub open spec fn gives_text(r: Result<Value, Error>, t: Seq<char>) -> bool {
    r matches Ok(Value::String(out)) && out@ == t
}

/// The opening of a builtin's type error: `name() requires want, got `.
pub open spec fn type_error_head(name: Seq<char>, want: Seq<char>) -> Seq<char> {
    name + "() requires "@ + want + ", got "@
}

/// `r` is builtin `name`'s type error for an argument `v` that is not `want`;
/// the message ends with the text that `show` gives `v`.
pub open spec fn type_error<S: Fn(&Value) -> String>(
    r: Result<Value, Error>,
    name: Seq<char>,
    want: Seq<char>,
    v: Value,
    show: S,
) -> bool {
    r matches Err(Error::InternalError(m)) && exists|t: String|
        #[trigger] show.ensures((&v,), t) && m@ == type_error_head(name, want) + t@
}

/// The first argument that is not `null`, or `null`.
pub open spec fn first_non_null(args: Seq<Value>) -> Value
    decreases args.len(),
{
    if args.len() == 0 {
        Value::Null
    } else if args[0] is Null {
        first_non_null(args.drop_first())
    } else {
        args[0]
    }
}

/// `sub` occurs in `s` starting at character `i`.
pub open spec fn occurs_at(s: Seq<char>, sub: Seq<char>, i: int) -> bool {
    0 <= i && i + sub.len() <= s.len() && s.subrange(i, i + sub.len()) == sub
}

/// The first character index at or after `from` where `sub` occurs in `s`,
/// or -1.
pub open spec fn first_at(s: Seq<char>, sub: Seq<char>, from: int) -> int
    decreases s.len() - from,
{
    if from < 0 || from + sub.len() > s.len() {
        -1
    } else if occurs_at(s, sub, from) {
        from
    } else if from >= s.len() {
        -1
    } else {
        first_at(s, sub, from + 1)
    }
}

/// The absolute value of an integer (as a mathematical integer).
pub open spec fn int_abs(i: i64) -> int {
    if i < 0 {
        -i
    } else {
        i as int
    }
}

/// The builtins whose result the library itself decides on `args`; the others
/// rest on conversions, comparisons and float arithmetic of values that the
/// caller supplies.
pub open spec fn decided(id: usize, args: Seq<Value>) -> bool {
    ||| id == 1 || id == 3 || id == 4 || id == 11 || id == 27 || id == 39
    ||| 28 <= id <= 32 || id == 35
    ||| (id == 33 || id == 34) && substr_decided(args)
    ||| id == 56 && slice_decided(args)
    ||| (id == 40 || id == 41) && pad_decided(args)
    ||| id == 59 || id == 36 || id == 37 || id == 55
    ||| id == 42 || id == 43 || id == 44 || id == 45
    ||| id == 46 && !(args[0] is Array)
    ||| id == 47 || id == 50 || id == 51 || id == 52 || id == 53 || id == 57 || id == 58
}

/// What builtin `id` returns on the arguments `a` (strict builtins see no
/// `null` here), where the library decides it.
pub open spec fn builtin_outcome<S: Fn(&Value) -> String>(
    id: usize,
    a: Seq<Value>,
    show: S,
    r: Result<Value, Error>,
) -> bool {
    if id == 1 {
        gives_value(r, first_non_null(a))
    } else if id == 3 || id == 4 {
        gives_value(r, if a[0] is Null { a[1] } else { a[0] })
    } else if id == 11 {
        match a[0] {
            Value::Int(i) => if i == i64::MIN {
                r matches Err(Error::InternalError(m)) && m@ == "integer overflow in abs()"@
            } else {
                r == Ok::<Value, Error>(Value::Int(int_abs(i) as i64))
            },
            Value::Float(b) => r == Ok::<Value, Error>(Value::Float(b & 0x7fff_ffff_ffff_ffffu64)),
            v => type_error(r, "abs"@, "a number"@, v, show),
        }
    } else if id == 27 {
        match a[0] {
            Value::String(s) => r == Ok::<Value, Error>(Value::Int(s@.len() as i64)),
            Value::Array(x) => r == Ok::<Value, Error>(Value::Int(x@.len() as i64)),
            Value::Object(o) => r == Ok::<Value, Error>(Value::Int(o@.len() as i64)),
            v => type_error(r, "length"@, "a string, array, or object"@, v, show),
        }
    } else if 28 <= id <= 32 {
        match a[0] {
            Value::String(s) => gives_text(r, text_map(id, s@)),
            v => type_error(r, text_map_name(id), "a string"@, v, show),
        }
    } else if id == 33 || id == 34 {
        substr_outcome(a, show, r)
    } else if id == 56 {
        slice_outcome(a, show, r)
    } else if id == 40 || id == 41 {
        let name = if id == 40 { "lpad"@ } else { "rpad"@ };
        match a[0] {
            Value::String(s) => match a[1] {
                Value::Int(w) => pad_outcome(name, id == 40, s@, w, if a.len() == 3 { Some(a[2]) } else { None }, show, r),
                _ => true,
            },
            v => type_error(r, name, "a string"@, v, show),
        }
    } else if id == 36 {
        r matches Ok(Value::String(t)) && joins_to(a, show, Seq::empty(), t@)
    } else if id == 37 {
        match a[0] {
            Value::Null => r == Ok::<Value, Error>(Value::Null),
            Value::String(sep) => r matches Ok(Value::String(t)) && joins_to(a.subrange(1, a.len() as int), show, sep@, t@),
            v => type_error(r, "concat_ws"@, "a string"@, v, show),
        }
    } else if id == 55 {
        match a[0] {
            Value::Array(x) => match a[1] {
                Value::String(sep) => r matches Ok(Value::String(t)) && joins_to(x@, show, sep@, t@),
                v => type_error(r, "array_to_string"@, "a string"@, v, show),
            },
            v => type_error(r, "array_to_string"@, "an array"@, v, show),
        }
    } else if id == 59 {
        match a[0] {
            Value::Object(o) => match a[1] {
                Value::String(k) => r == Ok::<Value, Error>(Value::Bool(has_key(o@, k@))),
                v => type_error(r, "object_has_key"@, "a string"@, v, show),
            },
            v => type_error(r, "object_has_key"@, "an object"@, v, show),
        }
    } else if id == 35 {
        match (a[0], a[1], a[2]) {
            (Value::String(s), Value::String(f), Value::String(t)) => gives_text(
                r,
                if f@.len() == 0 {
                    s@
                } else {
                    replace_text(s@, f@, t@)
                },
            ),
            (Value::String(_), Value::String(_), v) => type_error(r, "replace"@, "a string"@, v, show),
            (Value::String(_), v, _) => type_error(r, "replace"@, "a string"@, v, show),
            (v, _, _) => type_error(r, "replace"@, "a string"@, v, show),
        }
    } else if id == 39 {
        match a[0] {
            Value::String(s) => gives_text(r, s@.reverse()),
            Value::Array(x) => gives_array(r, x@.reverse()),
            v => type_error(r, "reverse"@, "a string or array"@, v, show),
        }
    } else if id == 42 || id == 43 || id == 44 || id == 45 {
        let name = if id == 44 {
            "starts_with"@
        } else if id == 45 {
            "ends_with"@
        } else {
            "strpos"@
        };
        match a[0] {
            Value::String(s) => match a[1] {
                Value::String(t) => if id == 44 {
                    r == Ok::<Value, Error>(Value::Bool(t@.len() <= s@.len() && s@.subrange(0, t@.len() as int) == t@))
                } else if id == 45 {
                    r == Ok::<Value, Error>(Value::Bool(t@.len() <= s@.len() && s@.subrange(s@.len() - t@.len(), s@.len() as int) == t@))
                } else {
                    r == Ok::<Value, Error>(Value::Int((first_at(s@, t@, 0) + 1) as i64))
                },
                v => type_error(r, name, "a string"@, v, show),
            },
            v => type_error(r, name, "a string"@, v, show),
        }
    } else if id == 46 {
        match a[0] {
            Value::String(s) => match a[1] {
                Value::String(t) => r == Ok::<Value, Error>(Value::Bool(first_at(s@, t@, 0) >= 0)),
                v => type_error(r, "contains"@, "a string"@, v, show),
            },
            v => type_error(r, "contains"@, "a string or array"@, v, show),
        }
    } else if id == 47 {
        match a[0] {
            Value::Array(x) => r == Ok::<Value, Error>(Value::Int(x@.len() as i64)),
            v => type_error(r, "array_length"@, "an array"@, v, show),
        }
    } else if id == 50 {
        match a[0] {
            Value::Array(x) => gives_array(r, x@.push(a[1])),
            v => type_error(r, "array_append"@, "an array"@, v, show),
        }
    } else if id == 51 {
        match a[1] {
            Value::Array(x) => gives_array(r, seq![a[0]] + x@),
            v => type_error(r, "array_prepend"@, "an array"@, v, show),
        }
    } else if id == 52 {
        match a[0] {
            Value::Array(x) => match a[1] {
                Value::Array(y) => gives_array(r, x@ + y@),
                v => type_error(r, "array_concat"@, "an array"@, v, show),
            },
            v => type_error(r, "array_concat"@, "an array"@, v, show),
        }
    } else if id == 53 {
        match a[0] {
            Value::Array(x) => gives_array(r, x@.reverse()),
            v => type_error(r, "array_reverse"@, "an array"@, v, show),
        }
    } else if id == 57 {
        match a[0] {
            Value::Object(o) => r matches Ok(Value::Array(out)) && out@.len() == o@.len()
                && forall|i: int| 0 <= i < o@.len() ==> is_text(#[trigger] out@[i], o@[i].key@),
            v => type_error(r, "object_keys"@, "an object"@, v, show),
        }
    } else {
        match a[0] {
            Value::Object(o) => r matches Ok(Value::Array(out)) && out@.len() == o@.len()
                && forall|i: int| 0 <= i < o@.len() ==> value_same(#[trigger] out@[i], o@[i].value),
            v => type_error(r, "object_values"@, "an object"@, v, show),
        }
    }
}

/// Builtin `name`'s type error for the argument `v`.
fn type_err<S: Fn(&Value) -> String>(name: &str, want: &str, v: &Value, show: S) -> (r: Error)
    requires
        forall|x: &Value| show.requires((x,)),
    ensures
        type_error(Err(r), name@, want@, *v, show),
{
    let t = show(v);
    let head = joined(&joined(&joined(name, "() requires "), want), ", got ");
    let m = joined(&head, &t);
    proof {
        assert(m@ == type_error_head(name@, want@) + t@);
    }
    Error::InternalError(m)
}

/// Whether an argument is `null`.
fn any_null(args: &Vec<Value>) -> (r: bool)
    ensures
        r == has_null(args@),
{
    let mut i: usize = 0;
    while i < args.len()
        invariant
            i <= args@.len(),
            forall|j: int| 0 <= j < i ==> !(#[trigger] args@[j] is Null),
        decreases args@.len() - i,
    {
        if args[i].is_null() {
            return true;
        }
        i = i + 1;
    }
    false
}


/// Returns the first non-null argument, or null if all are null.
fn coalesce(args: &Vec<Value>) -> (r: Result<Value, Error>)
    ensures
        gives_value(r, first_non_null(args@)),
{
    let mut i: usize = 0;
    assert(args@.subrange(0, args@.len() as int) =~= args@);
    while i < args.len()
        invariant
            i <= args@.len(),
            first_non_null(args@) == first_non_null(args@.subrange(i as int, args@.len() as int)),
        decreases args@.len() - i,
    {
        let ghost rest = args@.subrange(i as int, args@.len() as int);
        assert(rest[0] == args@[i as int]);
        if !args[i].is_null() {
            return Ok(copy_value(&args[i]));
        }
        assert(rest.drop_first() =~= args@.subrange(i + 1, args@.len() as int));
        i = i + 1;
    }
    assert(args@.subrange(i as int, args@.len() as int).len() == 0);
    Ok(Value::Null)
}

/// Returns the second argument when the first is null, else the first.
fn ifnull(args: &Vec<Value>) -> (r: Result<Value, Error>)
    requires
        args@.len() == 2,
    ensures
        gives_value(r, if args@[0] is Null { args@[1] } else { args@[0] }),
{
    if args[0].is_null() {
        Ok(copy_value(&args[1]))
    } else {
        Ok(copy_value(&args[0]))
    }
}

/// Absolute value; ints stay ints (overflow on `i64::MIN` errors), and a
/// float loses its sign bit.
fn abs<S: Fn(&Value) -> String>(args: &Vec<Value>, show: S) -> (r: Result<Value, Error>)
    requires
        args@.len() == 1,
        forall|x: &Value| show.requires((x,)),
    ensures
        builtin_outcome(11, args@, show, r),
{
    match &args[0] {
        Value::Int(i) => {
            if *i == i64::MIN {
                Err(Error::InternalError(String::from_str("integer overflow in abs()")))
            } else if *i < 0 {
                Ok(Value::Int(-*i))
            } else {
                Ok(Value::Int(*i))
            }
        },
        Value::Float(b) => Ok(Value::Float(*b & 0x7fff_ffff_ffff_ffffu64)),
        v => Err(type_err("abs", "a number", v, show)),
    }
}

/// Length: characters of a string, elements of an array, or members of an
/// object.
fn length<S: Fn(&Value) -> String>(args: &Vec<Value>, show: S) -> (r: Result<Value, Error>)
    requires
        args@.len() == 1,
        forall|x: &Value| show.requires((x,)),
    ensures
        builtin_outcome(27, args@, show, r),
{
    match &args[0] {
        Value::String(s) => Ok(Value::Int(s.as_str().unicode_len() as i64)),
        Value::Array(x) => Ok(Value::Int(x.len() as i64)),
        Value::Object(o) => Ok(Value::Int(o.len() as i64)),
        v => Err(type_err("length", "a string, array, or object", v, show)),
    }
}

/// The characters of `s` in reverse order, as a string.
fn reversed_text(s: &str) -> (r: String)
    ensures
        r@ == s@.reverse(),
{
    let cs = chars_of(s);
    let n = cs.len();
    let mut out = String::new();
    let mut i: usize = 0;
    while i < n
        invariant
            n == cs@.len(),
            cs@ == s@,
            i <= n,
            out@.len() == i,
            forall|j: int| 0 <= j < i ==> out@[j] == cs@[n - 1 - j],
        decreases n - i,
    {
        let c = cs[n - 1 - i];
        let ghost before = out@;
        out.append(char_text(c).as_str());
        assert(out@ =~= before.push(c));
        i = i + 1;
    }
    assert(out@ =~= s@.reverse());
    out
}

/// The values `x` in reverse order.
fn reversed_values(x: &Vec<Value>) -> (r: Vec<Value>)
    ensures
        same_seq(r@, x@.reverse()),
{
    let n = x.len();
    let mut out: Vec<Value> = Vec::new();
    let mut i: usize = 0;
    while i < n
        invariant
            n == x@.len(),
            i <= n,
            out@.len() == i,
            forall|j: int| 0 <= j < i ==> value_same(#[trigger] out@[j], x@[n - 1 - j]),
        decreases n - i,
    {
        out.push(copy_value(&x[n - 1 - i]));
        i = i + 1;
    }
    out
}

/// Reverses a string's characters or an array's elements.
fn reverse<S: Fn(&Value) -> String>(args: &Vec<Value>, show: S) -> (r: Result<Value, Error>)
    requires
        args@.len() == 1,
        forall|x: &Value| show.requires((x,)),
    ensures
        builtin_outcome(39, args@, show, r),
{
    match &args[0] {
        Value::String(s) => Ok(Value::String(reversed_text(s.as_str()))),
        Value::Array(x) => Ok(Value::Array(reversed_values(x))),
        v => Err(type_err("reverse", "a string or array", v, show)),
    }
}


/// Whether `t` occurs in `s` starting at character `i`.
fn matches_at(s: &Vec<char>, t: &Vec<char>, i: usize) -> (r: bool)
    requires
        i + t@.len() <= s@.len(),
    ensures
        r == occurs_at(s@, t@, i as int),
{
    let m = t.len();
    let mut k: usize = 0;
    while k < m
        invariant
            m == t@.len(),
            i + m <= s.len(),
            k <= m,
            forall|j: int| 0 <= j < k ==> s@[i + j] == t@[j],
        decreases m - k,
    {
        if s[i + k] != t[k] {
            assert(s@.subrange(i as int, i + m)[k as int] != t@[k as int]);
            return false;
        }
        k = k + 1;
    }
    assert(s@.subrange(i as int, i + m) =~= t@);
    true
}

/// The first character index where `t` occurs in `s`, if any.
fn find_text(s: &Vec<char>, t: &Vec<char>) -> (r: Option<usize>)
    ensures
        match r {
            Some(i) => i as int == first_at(s@, t@, 0) && i < usize::MAX,
            None => first_at(s@, t@, 0) == -1,
        },
{
    let n = s.len();
    let m = t.len();
    if m > n {
        return None;
    }
    if m == 0 {
        assert(s@.subrange(0, 0) =~= t@);
        return Some(0);
    }
    let mut i: usize = 0;
    while i <= n - m
        invariant
            n == s@.len(),
            m == t@.len(),
            1 <= m <= n,
            i <= n - m + 1,
            first_at(s@, t@, 0) == first_at(s@, t@, i as int),
        decreases n - m + 1 - i,
    {
        if matches_at(s, t, i) {
            return Some(i);
        }
        i = i + 1;
    }
    None
}

/// The two string arguments of a builtin that wants strings, or its type
/// error for the first argument that is not one.
fn string_pair<S: Fn(&Value) -> String>(name: &str, a: &Value, b: &Value, show: S) -> (r: Result<(Vec<char>, Vec<char>), Error>)
    requires
        forall|x: &Value| show.requires((x,)),
    ensures
        match (*a, *b) {
            (Value::String(s), Value::String(t)) => r matches Ok((x, y)) && x@ == s@ && y@ == t@,
            (Value::String(_), v) => r matches Err(e) && type_error(Err(e), name@, "a string"@, v, show),
            (v, _) => r matches Err(e) && type_error(Err(e), name@, "a string"@, v, show),
        },
{
    match a {
        Value::String(s) => match b {
            Value::String(t) => Ok((chars_of(s.as_str()), chars_of(t.as_str()))),
            v => Err(type_err(name, "a string", v, show)),
        },
        v => Err(type_err(name, "a string", v, show)),
    }
}

/// 1-based index of the first occurrence of a substring, or 0 if absent.
fn strpos<S: Fn(&Value) -> String>(args: &Vec<Value>, show: S) -> (r: Result<Value, Error>)
    requires
        args@.len() == 2,
        forall|x: &Value| show.requires((x,)),
    ensures
        builtin_outcome(42, args@, show, r),
{
    match string_pair("strpos", &args[0], &args[1], show) {
        Ok((s, t)) => match find_text(&s, &t) {
            Some(i) => Ok(Value::Int((i + 1) as i64)),
            None => Ok(Value::Int(0)),
        },
        Err(e) => Err(e),
    }
}

/// Whether a string begins with a prefix.
fn starts_with<S: Fn(&Value) -> String>(args: &Vec<Value>, show: S) -> (r: Result<Value, Error>)
    requires
        args@.len() == 2,
        forall|x: &Value| show.requires((x,)),
    ensures
        builtin_outcome(44, args@, show, r),
{
    match string_pair("starts_with", &args[0], &args[1], show) {
        Ok((s, t)) => Ok(Value::Bool(t.len() <= s.len() && matches_at(&s, &t, 0))),
        Err(e) => Err(e),
    }
}

/// Whether a string ends with a suffix.
fn ends_with<S: Fn(&Value) -> String>(args: &Vec<Value>, show: S) -> (r: Result<Value, Error>)
    requires
        args@.len() == 2,
        forall|x: &Value| show.requires((x,)),
    ensures
        builtin_outcome(45, args@, show, r),
{
    match string_pair("ends_with", &args[0], &args[1], show) {
        Ok((s, t)) => Ok(Value::Bool(t.len() <= s.len() && matches_at(&s, &t, s.len() - t.len()))),
        Err(e) => Err(e),
    }
}

/// Whether a string contains a substring (a non-array first argument).
fn contains_text<S: Fn(&Value) -> String>(args: &Vec<Value>, show: S) -> (r: Result<Value, Error>)
    requires
        args@.len() == 2,
        !(args@[0] is Array),
        forall|x: &Value| show.requires((x,)),
    ensures
        builtin_outcome(46, args@, show, r),
{
    match &args[0] {
        Value::String(s) => match &args[1] {
            Value::String(t) => {
                let found = find_text(&chars_of(s.as_str()), &chars_of(t.as_str()));
                Ok(Value::Bool(found.is_some()))
            },
            v => Err(type_err("contains", "a string", v, show)),
        },
        v => Err(type_err("contains", "a string or array", v, show)),
    }
}


/// Number of elements in an array.
fn array_length<S: Fn(&Value) -> String>(args: &Vec<Value>, show: S) -> (r: Result<Value, Error>)
    requires
        args@.len() == 1,
        forall|x: &Value| show.requires((x,)),
    ensures
        builtin_outcome(47, args@, show, r),
{
    match &args[0] {
        Value::Array(x) => Ok(Value::Int(x.len() as i64)),
        v => Err(type_err("array_length", "an array", v, show)),
    }
}

/// Copies of `x` followed by copies of `y`.
fn joined_values(x: &Vec<Value>, y: &Vec<Value>) -> (r: Vec<Value>)
    ensures
        same_seq(r@, x@ + y@),
{
    let mut out = copy_values(x);
    let mut rest = copy_values(y);
    out.append(&mut rest);
    out
}

/// Returns the array with an element appended.
fn array_append<S: Fn(&Value) -> String>(args: &Vec<Value>, show: S) -> (r: Result<Value, Error>)
    requires
        args@.len() == 2,
        forall|x: &Value| show.requires((x,)),
    ensures
        builtin_outcome(50, args@, show, r),
{
    match &args[0] {
        Value::Array(x) => {
            let mut items = copy_values(x);
            items.push(copy_value(&args[1]));
            Ok(Value::Array(items))
        },
        v => Err(type_err("array_append", "an array", v, show)),
    }
}

/// Returns the array (second argument) with an element prepended.
fn array_prepend<S: Fn(&Value) -> String>(args: &Vec<Value>, show: S) -> (r: Result<Value, Error>)
    requires
        args@.len() == 2,
        forall|x: &Value| show.requires((x,)),
    ensures
        builtin_outcome(51, args@, show, r),
{
    match &args[1] {
        Value::Array(x) => {
            let mut items: Vec<Value> = Vec::new();
            items.push(copy_value(&args[0]));
            let mut rest = copy_values(x);
            items.append(&mut rest);
            Ok(Value::Array(items))
        },
        v => Err(type_err("array_prepend", "an array", v, show)),
    }
}

/// Concatenates two arrays.
fn array_concat<S: Fn(&Value) -> String>(args: &Vec<Value>, show: S) -> (r: Result<Value, Error>)
    requires
        args@.len() == 2,
        forall|x: &Value| show.requires((x,)),
    ensures
        builtin_outcome(52, args@, show, r),
{
    match &args[0] {
        Value::Array(x) => match &args[1] {
            Value::Array(y) => Ok(Value::Array(joined_values(x, y))),
            v => Err(type_err("array_concat", "an array", v, show)),
        },
        v => Err(type_err("array_concat", "an array", v, show)),
    }
}

/// Returns the array with its elements reversed.
fn array_reverse<S: Fn(&Value) -> String>(args: &Vec<Value>, show: S) -> (r: Result<Value, Error>)
    requires
        args@.len() == 1,
        forall|x: &Value| show.requires((x,)),
    ensures
        builtin_outcome(53, args@, show, r),
{
    match &args[0] {
        Value::Array(x) => Ok(Value::Array(reversed_values(x))),
        v => Err(type_err("array_reverse", "an array", v, show)),
    }
}

/// The object's keys as a string array, in insertion order.
fn object_keys<S: Fn(&Value) -> String>(args: &Vec<Value>, show: S) -> (r: Result<Value, Error>)
    requires
        args@.len() == 1,
        forall|x: &Value| show.requires((x,)),
    ensures
        builtin_outcome(57, args@, show, r),
{
    match &args[0] {
        Value::Object(o) => {
            let mut out: Vec<Value> = Vec::new();
            let mut i: usize = 0;
            while i < o.len()
                invariant
                    i <= o@.len(),
                    out@.len() == i,
                    forall|j: int| 0 <= j < i ==> is_text(#[trigger] out@[j], o@[j].key@),
                decreases o@.len() - i,
            {
                out.push(Value::String(o[i].key.clone()));
                i = i + 1;
            }
            Ok(Value::Array(out))
        },
        v => Err(type_err("object_keys", "an object", v, show)),
    }
}

/// The object's values as an array, in insertion order.
fn object_values<S: Fn(&Value) -> String>(args: &Vec<Value>, show: S) -> (r: Result<Value, Error>)
    requires
        args@.len() == 1,
        forall|x: &Value| show.requires((x,)),
    ensures
        builtin_outcome(58, args@, show, r),
{
    match &args[0] {
        Value::Object(o) => {
            let mut out: Vec<Value> = Vec::new();
            let mut i: usize = 0;
            while i < o.len()
                invariant
                    i <= o@.len(),
                    out@.len() == i,
                    forall|j: int| 0 <= j < i ==> value_same(#[trigger] out@[j], o@[j].value),
                decreases o@.len() - i,
            {
                out.push(copy_value(&o[i].value));
                i = i + 1;
            }
            Ok(Value::Array(out))
        },
        v => Err(type_err("object_values", "an object", v, show)),
    }
}



/// The text `str::to_uppercase` gives.
pub uninterp spec fn upper_text(s: Seq<char>) -> Seq<char>;

/// The text `str::to_lowercase` gives.
pub uninterp spec fn lower_text(s: Seq<char>) -> Seq<char>;

/// The text `str::trim` gives (Unicode white space off both ends).
pub uninterp spec fn trim_text(s: Seq<char>) -> Seq<char>;

/// The text `str::trim_start` gives.
pub uninterp spec fn trim_start_text(s: Seq<char>) -> Seq<char>;

/// The text `str::trim_end` gives.
pub uninterp spec fn trim_end_text(s: Seq<char>) -> Seq<char>;

/// The text `str::replace` gives: each occurrence of `from`, left to right
/// and not overlapping, replaced by `to`.
pub uninterp spec fn replace_text(s: Seq<char>, from: Seq<char>, to: Seq<char>) -> Seq<char>;

/// `str::to_uppercase`.
#[verifier::external_body]
fn to_upper(s: &str) -> (r: String)
    ensures
        r@ == upper_text(s@),
{
    s.to_uppercase()
}

/// `str::to_lowercase`.
#[verifier::external_body]
fn to_lower(s: &str) -> (r: String)
    ensures
        r@ == lower_text(s@),
{
    s.to_lowercase()
}

/// `str::trim`.
#[verifier::external_body]
fn trimmed(s: &str) -> (r: String)
    ensures
        r@ == trim_text(s@),
{
    s.trim().to_string()
}

/// `str::trim_start`.
#[verifier::external_body]
fn trimmed_start(s: &str) -> (r: String)
    ensures
        r@ == trim_start_text(s@),
{
    s.trim_start().to_string()
}

/// `str::trim_end`.
#[verifier::external_body]
fn trimmed_end(s: &str) -> (r: String)
    ensures
        r@ == trim_end_text(s@),
{
    s.trim_end().to_string()
}

/// `str::replace`.
#[verifier::external_body]
fn replaced(s: &str, from: &str, to: &str) -> (r: String)
    ensures
        r@ == replace_text(s@, from@, to@),
{
    s.replace(from, to)
}

/// The text a one-string builtin (`upper`, `lower`, `trim`, `ltrim`,
/// `rtrim`: ids 28 to 32) makes of its argument.
pub open spec fn text_map(id: usize, s: Seq<char>) -> Seq<char> {
    if id == 28 {
        upper_text(s)
    } else if id == 29 {
        lower_text(s)
    } else if id == 30 {
        trim_text(s)
    } else if id == 31 {
        trim_start_text(s)
    } else {
        trim_end_text(s)
    }
}

/// The name of a one-string builtin.
pub open spec fn text_map_name(id: usize) -> Seq<char> {
    if id == 28 {
        "upper"@
    } else if id == 29 {
        "lower"@
    } else if id == 30 {
        "trim"@
    } else if id == 31 {
        "ltrim"@
    } else {
        "rtrim"@
    }
}

/// Uppercases, lowercases or trims a string (ids 28 to 32).
fn map_text<S: Fn(&Value) -> String>(id: usize, args: &Vec<Value>, show: S) -> (r: Result<Value, Error>)
    requires
        28 <= id <= 32,
        args@.len() == 1,
        forall|x: &Value| show.requires((x,)),
    ensures
        builtin_outcome(id, args@, show, r),
{
    let name = if id == 28 {
        "upper"
    } else if id == 29 {
        "lower"
    } else if id == 30 {
        "trim"
    } else if id == 31 {
        "ltrim"
    } else {
        "rtrim"
    };
    match &args[0] {
        Value::String(s) => {
            let t = if id == 28 {
                to_upper(s.as_str())
            } else if id == 29 {
                to_lower(s.as_str())
            } else if id == 30 {
                trimmed(s.as_str())
            } else if id == 31 {
                trimmed_start(s.as_str())
            } else {
                trimmed_end(s.as_str())
            };
            Ok(Value::String(t))
        },
        v => Err(type_err(name, "a string", v, show)),
    }
}

/// Replaces every occurrence of a substring (an empty search is a no-op).
fn replace<S: Fn(&Value) -> String>(args: &Vec<Value>, show: S) -> (r: Result<Value, Error>)
    requires
        args@.len() == 3,
        forall|x: &Value| show.requires((x,)),
    ensures
        builtin_outcome(35, args@, show, r),
{
    match &args[0] {
        Value::String(s) => match &args[1] {
            Value::String(from) => match &args[2] {
                Value::String(to) => {
                    if from.as_str().unicode_len() == 0 {
                        Ok(Value::String(s.clone()))
                    } else {
                        Ok(Value::String(replaced(s.as_str(), from.as_str(), to.as_str())))
                    }
                },
                v => Err(type_err("replace", "a string", v, show)),
            },
            v => Err(type_err("replace", "a string", v, show)),
        },
        v => Err(type_err("replace", "a string", v, show)),
    }
}


/// The 0-based start of a 1-based position (positions below 1 start at 0).
pub open spec fn start_of(pos: i64) -> int {
    if pos < 1 {
        0
    } else {
        pos - 1
    }
}

/// Whether the library decides `substr` on these arguments: the counts that
/// it reads are integers (other values convert by rules the caller holds).
pub open spec fn substr_decided(a: Seq<Value>) -> bool {
    match a[0] {
        Value::String(s) => match a[1] {
            Value::Int(st) => start_of(st) >= s@.len() || a.len() == 2 || a[2] is Int,
            _ => false,
        },
        _ => true,
    }
}

/// What `substr` gives, where the library decides it: the characters from a
/// 1-based start, with an optional count.
pub open spec fn substr_outcome<S: Fn(&Value) -> String>(a: Seq<Value>, show: S, r: Result<Value, Error>) -> bool {
    match a[0] {
        Value::String(s) => match a[1] {
            Value::Int(st) => {
                let b = start_of(st);
                if b >= s@.len() {
                    gives_text(r, Seq::empty())
                } else if a.len() == 2 {
                    gives_text(r, s@.subrange(b, s@.len() as int))
                } else {
                    match a[2] {
                        Value::Int(c) => if c <= 0 {
                            gives_text(r, Seq::empty())
                        } else {
                            gives_text(r, s@.subrange(b, if b + c < s@.len() { b + c } else { s@.len() as int }))
                        },
                        _ => true,
                    }
                }
            },
            _ => true,
        },
        v => type_error(r, "substr"@, "a string"@, v, show),
    }
}

/// Substring from a 1-based start, with an optional character count.
fn substr<S: Fn(&Value) -> String>(args: &Vec<Value>, show: S) -> (r: Result<Value, Error>)
    requires
        args@.len() == 2 || args@.len() == 3,
        substr_decided(args@),
        forall|x: &Value| show.requires((x,)),
    ensures
        substr_outcome(args@, show, r),
{
    match &args[0] {
        Value::String(s) => match &args[1] {
            Value::Int(st) => {
                let chars = chars_of(s.as_str());
                let len = chars.len();
                let begin: usize = if *st < 1 {
                    0
                } else if ((*st - 1) as u64) < (len as u64) {
                    (*st - 1) as usize
                } else {
                    len
                };
                if begin >= len {
                    return Ok(Value::String(String::new()));
                }
                let end: usize = if args.len() == 3 {
                    match &args[2] {
                        Value::Int(c) => {
                            if *c <= 0 {
                                return Ok(Value::String(String::new()));
                            }
                            if (*c as u64) < ((len - begin) as u64) {
                                begin + (*c as usize)
                            } else {
                                len
                            }
                        },
                        // Not reached: `requires` makes the count an integer here.
                        _ => len,
                    }
                } else {
                    len
                };
                Ok(Value::String(text_of(&chars, begin, end)))
            },
            // Not reached: `requires` makes the start an integer here.
            _ => Ok(Value::Null),
        },
        v => Err(type_err("substr", "a string", v, show)),
    }
}

/// Whether the library decides `array_slice` on these arguments: its
/// bounds are integers.
pub open spec fn slice_decided(a: Seq<Value>) -> bool {
    !(a[0] is Array) || (a[1] is Int && a[2] is Int)
}

/// What `array_slice` gives, where the library decides it: the elements
/// between the 1-based inclusive bounds, clamped to the array.
pub open spec fn slice_outcome<S: Fn(&Value) -> String>(a: Seq<Value>, show: S, r: Result<Value, Error>) -> bool {
    match a[0] {
        Value::Array(x) => match (a[1], a[2]) {
            (Value::Int(st), Value::Int(en)) => {
                let b = start_of(st);
                let f: int = if en < 0 {
                    0
                } else if en < x@.len() {
                    en as int
                } else {
                    x@.len() as int
                };
                if b >= f {
                    gives_array(r, Seq::empty())
                } else {
                    gives_array(r, x@.subrange(b, f))
                }
            },
            _ => true,
        },
        v => type_error(r, "array_slice"@, "an array"@, v, show),
    }
}

/// Sub-array between 1-based inclusive `start` and `end`, clamped to bounds.
fn array_slice<S: Fn(&Value) -> String>(args: &Vec<Value>, show: S) -> (r: Result<Value, Error>)
    requires
        args@.len() == 3,
        slice_decided(args@),
        forall|x: &Value| show.requires((x,)),
    ensures
        slice_outcome(args@, show, r),
{
    match &args[0] {
        Value::Array(x) => match (&args[1], &args[2]) {
            (Value::Int(st), Value::Int(en)) => {
                let len = x.len();
                let begin: usize = if *st < 1 {
                    0
                } else if ((*st - 1) as u64) < (len as u64) {
                    (*st - 1) as usize
                } else {
                    len
                };
                let finish: usize = if *en < 0 {
                    0
                } else if (*en as u64) < (len as u64) {
                    *en as usize
                } else {
                    len
                };
                if begin >= finish {
                    return Ok(Value::Array(Vec::new()));
                }
                let mut out: Vec<Value> = Vec::new();
                let mut i: usize = begin;
                while i < finish
                    invariant
                        begin <= i <= finish,
                        finish <= x@.len(),
                        out@.len() == i - begin,
                        forall|j: int| 0 <= j < i - begin ==> value_same(#[trigger] out@[j], x@[begin + j]),
                    decreases finish - i,
                {
                    out.push(copy_value(&x[i]));
                    i = i + 1;
                }
                Ok(Value::Array(out))
            },
            // Not reached: `requires` makes both bounds integers here.
            _ => Ok(Value::Null),
        },
        v => Err(type_err("array_slice", "an array", v, show)),
    }
}


/// Whether the library decides `substr` on these arguments.
fn substr_decided_exec(args: &Vec<Value>) -> (r: bool)
    requires
        args@.len() == 2 || args@.len() == 3,
    ensures
        r == substr_decided(args@),
{
    match &args[0] {
        Value::String(s) => match &args[1] {
            Value::Int(st) => {
                let len = s.as_str().unicode_len();
                let past = if *st < 1 {
                    len == 0
                } else {
                    ((*st - 1) as u64) >= (len as u64)
                };
                past || args.len() == 2 || matches!(args[2], Value::Int(_))
            },
            _ => false,
        },
        _ => true,
    }
}


/// The longest string `lpad` and `rpad` build.
pub const MAX_STR_LEN: usize = 1073741824;

/// `n` characters of `fill` repeated from its start.
pub open spec fn cycled(fill: Seq<char>, n: int) -> Seq<char> {
    Seq::new(n as nat, |i: int| fill[i % (fill.len() as int)])
}

/// What `lpad` (`left`) or `rpad` gives on a string `s` and an integer
/// width, with the fill argument `fill` if there is one.
pub open spec fn pad_outcome<S: Fn(&Value) -> String>(
    name: Seq<char>,
    left: bool,
    s: Seq<char>,
    w: i64,
    fill: Option<Value>,
    show: S,
    r: Result<Value, Error>,
) -> bool {
    if w <= 0 {
        gives_text(r, Seq::empty())
    } else if w > MAX_STR_LEN {
        r matches Err(Error::InternalError(m)) && m@ == name + "() result is too large"@
    } else if s.len() >= w {
        gives_text(r, s.subrange(0, w as int))
    } else {
        match fill {
            Some(Value::String(f)) => if f@.len() == 0 {
                gives_text(r, s)
            } else if left {
                gives_text(r, cycled(f@, w - s.len()) + s)
            } else {
                gives_text(r, s + cycled(f@, w - s.len()))
            },
            Some(v) => type_error(r, name, "a string"@, v, show),
            None => if left {
                gives_text(r, cycled(seq![' '], w - s.len()) + s)
            } else {
                gives_text(r, s + cycled(seq![' '], w - s.len()))
            },
        }
    }
}

/// `n` characters of `fill` repeated from its start, as a string.
fn cycled_text(fill: &Vec<char>, n: usize) -> (r: String)
    requires
        fill@.len() > 0,
    ensures
        r@ == cycled(fill@, n as int),
{
    let mut out = String::new();
    let mut i: usize = 0;
    while i < n
        invariant
            fill@.len() > 0,
            i <= n,
            out@ =~= cycled(fill@, i as int),
        decreases n - i,
    {
        out.append(char_text(fill[i % fill.len()]).as_str());
        i = i + 1;
    }
    out
}

/// Pads a string to a target character width, on the left or the right,
/// cutting it if it is already longer; the fill defaults to a space.
fn pad<S: Fn(&Value) -> String>(id: usize, args: &Vec<Value>, show: S) -> (r: Result<Value, Error>)
    requires
        id == 40 || id == 41,
        args@.len() == 2 || args@.len() == 3,
        pad_decided(args@),
        forall|x: &Value| show.requires((x,)),
    ensures
        builtin_outcome(id, args@, show, r),
{
    let left = id == 40;
    let name = if left {
        "lpad"
    } else {
        "rpad"
    };
    match &args[0] {
        Value::String(s) => match &args[1] {
            Value::Int(w) => {
                if *w <= 0 {
                    return Ok(Value::String(String::new()));
                }
                if *w > 1073741824 {
                    return Err(Error::InternalError(joined(name, "() result is too large")));
                }
                let width = *w as usize;
                let chars = chars_of(s.as_str());
                if chars.len() >= width {
                    return Ok(Value::String(text_of(&chars, 0, width)));
                }
                let fill: Vec<char> = if args.len() == 3 {
                    match &args[2] {
                        Value::String(f) => chars_of(f.as_str()),
                        v => {
                            return Err(type_err(name, "a string", v, show));
                        },
                    }
                } else {
                    let mut space: Vec<char> = Vec::new();
                    space.push(' ');
                    assert(space@ =~= seq![' ']);
                    space
                };
                if fill.len() == 0 {
                    return Ok(Value::String(s.clone()));
                }
                let padding = cycled_text(&fill, width - chars.len());
                if left {
                    Ok(Value::String(joined(padding.as_str(), s.as_str())))
                } else {
                    Ok(Value::String(joined(s.as_str(), padding.as_str())))
                }
            },
            // Not reached: `requires` makes the width an integer here.
            _ => Ok(Value::Null),
        },
        v => Err(type_err(name, "a string", v, show)),
    }
}

/// Whether the library decides `lpad` or `rpad` on these arguments: the
/// width is an integer.
pub open spec fn pad_decided(a: Seq<Value>) -> bool {
    !(a[0] is String) || a[1] is Int
}

/// Whether some member is named `k`.
pub open spec fn has_key(o: Seq<Field>, k: Seq<char>) -> bool {
    exists|j: int| 0 <= j < o.len() && (#[trigger] o[j]).key@ == k
}

/// Whether the object has a member under the given key.
#[verifier::loop_isolation(false)]
fn object_has_key<S: Fn(&Value) -> String>(args: &Vec<Value>, show: S) -> (r: Result<Value, Error>)
    requires
        args@.len() == 2,
        forall|x: &Value| show.requires((x,)),
    ensures
        builtin_outcome(59, args@, show, r),
{
    match &args[0] {
        Value::Object(o) => match &args[1] {
            Value::String(k) => {
                let mut i: usize = 0;
                while i < o.len()
                    invariant
                        i <= o@.len(),
                        forall|j: int| 0 <= j < i ==> (#[trigger] o@[j]).key@ != k@,
                    decreases o.len() - i,
                {
                    if str_eq(o[i].key.as_str(), k.as_str()) {
                        assert(o@[i as int].key@ == k@);
                        assert(has_key(o@, k@));
                        return Ok(Value::Bool(true));
                    }
                    i = i + 1;
                }
                Ok(Value::Bool(false))
            },
            v => Err(type_err("object_has_key", "a string", v, show)),
        },
        v => Err(type_err("object_has_key", "an object", v, show)),
    }
}


/// The values that are not `null`, in order.
pub open spec fn present(vs: Seq<Value>) -> Seq<Value>
    decreases vs.len(),
{
    if vs.len() == 0 {
        vs
    } else if vs.last() is Null {
        present(vs.drop_last())
    } else {
        present(vs.drop_last()).push(vs.last())
    }
}

/// `t` is a value's text in a joined string: a string's own text, else the
/// text that `show` gives it.
pub open spec fn text_is_of<S: Fn(&Value) -> String>(v: Value, show: S, t: String) -> bool {
    match v {
        Value::String(s) => t@ == s@,
        _ => show.ensures((&v,), t),
    }
}

/// The texts `ts` between separators `sep`.
pub open spec fn joined_with(ts: Seq<String>, sep: Seq<char>) -> Seq<char>
    decreases ts.len(),
{
    if ts.len() == 0 {
        Seq::empty()
    } else if ts.len() == 1 {
        ts[0]@
    } else {
        joined_with(ts.drop_last(), sep) + sep + ts.last()@
    }
}

/// `t` is the texts of the values of `vs` that are not `null`, between
/// separators `sep`.
pub open spec fn joins_to<S: Fn(&Value) -> String>(vs: Seq<Value>, show: S, sep: Seq<char>, t: Seq<char>) -> bool {
    exists|ts: Seq<String>|
        #![trigger joined_with(ts, sep)]
        ts.len() == present(vs).len() && (forall|i: int|
            0 <= i < ts.len() ==> text_is_of(present(vs)[i], show, #[trigger] ts[i])) && t == joined_with(ts, sep)
}

/// The texts of `vs[from..]` that are not `null`, between separators `sep`.
fn join_present<S: Fn(&Value) -> String>(vs: &Vec<Value>, from: usize, sep: &str, show: S) -> (r: String)
    requires
        from <= vs@.len(),
        forall|x: &Value| show.requires((x,)),
    ensures
        joins_to(vs@.subrange(from as int, vs@.len() as int), show, sep@, r@),
{
    let mut out = String::new();
    let ghost mut ts: Seq<String> = Seq::empty();
    let mut i: usize = from;
    let mut any = false;
    assert(vs@.subrange(from as int, from as int).len() == 0);
    while i < vs.len()
        invariant
            from <= i <= vs@.len(),
            forall|x: &Value| show.requires((x,)),
            ts.len() == present(vs@.subrange(from as int, i as int)).len(),
            forall|j: int| 0 <= j < ts.len() ==> text_is_of(present(vs@.subrange(from as int, i as int))[j], show, #[trigger] ts[j]),
            out@ == joined_with(ts, sep@),
            any == (ts.len() > 0),
        decreases vs@.len() - i,
    {
        let ghost before = vs@.subrange(from as int, i as int);
        let ghost after = vs@.subrange(from as int, i + 1);
        assert(after.drop_last() =~= before);
        assert(after.last() == vs@[i as int]);
        match &vs[i] {
            Value::Null => {},
            v => {
                let t = match v {
                    Value::String(s) => s.clone(),
                    _ => show(v),
                };
                proof {
                    let nts = ts.push(t);
                    assert(nts.drop_last() =~= ts);
                    assert forall|j: int| 0 <= j < nts.len() implies text_is_of(present(after)[j], show, #[trigger] nts[j]) by {
                        if j < ts.len() {
                            assert(present(after)[j] == present(before)[j]);
                        }
                    }
                    ts = nts;
                }
                if any {
                    out.append(sep);
                }
                out.append(t.as_str());
                any = true;
            },
        }
        i = i + 1;
    }
    assert(joined_with(ts, sep@) == out@);
    out
}

/// Concatenates the arguments, skipping nulls; a string gives its own text
/// and another value the text `show` gives it.
fn concat<S: Fn(&Value) -> String>(args: &Vec<Value>, show: S) -> (r: Result<Value, Error>)
    requires
        forall|x: &Value| show.requires((x,)),
    ensures
        builtin_outcome(36, args@, show, r),
{
    let t = join_present(args, 0, "", show);
    proof {
        reveal_strlit("");
        assert(""@ =~= Seq::<char>::empty());
    }
    assert(args@.subrange(0, args@.len() as int) =~= args@);
    Ok(Value::String(t))
}

/// Joins the trailing arguments with a separator, skipping nulls; a null
/// separator gives null.
fn concat_ws<S: Fn(&Value) -> String>(args: &Vec<Value>, show: S) -> (r: Result<Value, Error>)
    requires
        args@.len() >= 1,
        forall|x: &Value| show.requires((x,)),
    ensures
        builtin_outcome(37, args@, show, r),
{
    match &args[0] {
        Value::Null => Ok(Value::Null),
        Value::String(sep) => Ok(Value::String(join_present(args, 1, sep.as_str(), show))),
        v => Err(type_err("concat_ws", "a string", v, show)),
    }
}

/// Joins an array's non-null elements into a string with a separator.
fn array_to_string<S: Fn(&Value) -> String>(args: &Vec<Value>, show: S) -> (r: Result<Value, Error>)
    requires
        args@.len() == 2,
        forall|x: &Value| show.requires((x,)),
    ensures
        builtin_outcome(55, args@, show, r),
{
    match &args[0] {
        Value::Array(x) => match &args[1] {
            Value::String(sep) => {
                let t = join_present(x, 0, sep.as_str(), show);
                assert(x@.subrange(0, x@.len() as int) =~= x@);
                Ok(Value::String(t))
            },
            v => Err(type_err("array_to_string", "a string", v, show)),
        },
        v => Err(type_err("array_to_string", "an array", v, show)),
    }
}

/// Invokes builtin `id` with `args`. A strict builtin short-circuits to `null`
/// when any argument is `null`, so its body only ever sees non-null
/// arguments. `show` gives a value's text for the message of a type error;
/// `other` runs the builtins whose result rests on conversions, comparisons
/// and float arithmetic of values (and on the file readers and writers).
pub fn call<S, F>(id: usize, args: &Vec<Value>, show: S, other: F) -> (r: Result<Value, Error>) where
    S: Fn(&Value) -> String,
    F: Fn(usize, &Vec<Value>) -> Result<Value, Error>,

    requires
        id < BUILTIN_COUNT,
        accepts(builtin_arity(id), args.len()),
        forall|x: &Value| show.requires((x,)),
        forall|k: usize, xs: &Vec<Value>| other.requires((k, xs)),
    ensures
        builtin_strict(id) && has_null(args@) ==> r == Ok::<Value, Error>(Value::Null),
        !(builtin_strict(id) && has_null(args@)) && decided(id, args@) ==> builtin_outcome(
            id,
            args@,
            show,
            r,
        ),
        !(builtin_strict(id) && has_null(args@)) && !decided(id, args@) ==> other.ensures(
            (id, args),
            r,
        ),
{
    if is_strict(id) && any_null(args) {
        return Ok(Value::Null);
    }
    match id {
        1 => coalesce(args),
        3 | 4 => ifnull(args),
        11 => abs(args, show),
        27 => length(args, show),
        28 | 29 | 30 | 31 | 32 => map_text(id, args, show),
        33 | 34 => {
            if substr_decided_exec(args) {
                substr(args, show)
            } else {
                other(id, args)
            }
        },
        35 => replace(args, show),
        36 => concat(args, show),
        37 => concat_ws(args, show),
        55 => array_to_string(args, show),
        56 => {
            if matches!(args[0], Value::Array(_)) && !(matches!(args[1], Value::Int(_)) && matches!(args[2], Value::Int(_))) {
                other(id, args)
            } else {
                array_slice(args, show)
            }
        },
        39 => reverse(args, show),
        42 | 43 => strpos(args, show),
        44 => starts_with(args, show),
        45 => ends_with(args, show),
        46 => match &args[0] {
            Value::Array(_) => other(id, args),
            _ => contains_text(args, show),
        },
        47 => array_length(args, show),
        50 => array_append(args, show),
        51 => array_prepend(args, show),
        52 => array_concat(args, show),
        53 => array_reverse(args, show),
        40 | 41 => {
            if matches!(args[0], Value::String(_)) && !matches!(args[1], Value::Int(_)) {
                other(id, args)
            } else {
                pad(id, args, show)
            }
        },
        57 => object_keys(args, show),
        58 => object_values(args, show),
        59 => object_has_key(args, show),
        _ => other(id, args),
    }
}

} // verus!
