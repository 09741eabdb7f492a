//! The words that instructions, types, conditions and functions are named by.
use crate::ir::{Pred, Rt};
use vstd::prelude::*;
#[allow(unused_imports)]
use crate::assembly::{float_pred_text, pred_text, rt_text};
#[allow(unused_imports)]
use crate::laws::lines::is_solid;
#[allow(unused_imports)]
use crate::laws::llvm::{
    float_test, int_test, linked, linked_on, mnemonic, width, Mn,
};
#[allow(unused_imports)]
use crate::memory::heap::compares;

verus! {

pub proof fn lemma_mnemonics()
    ensures
        mnemonic("add"@) == Some(Mn::Add),
        mnemonic("sub"@) == Some(Mn::Sub),
        mnemonic("mul"@) == Some(Mn::Mul),
        mnemonic("sdiv"@) == Some(Mn::Sdiv),
        mnemonic("srem"@) == Some(Mn::Srem),
        mnemonic("and"@) == Some(Mn::And),
        mnemonic("or"@) == Some(Mn::Or),
        mnemonic("xor"@) == Some(Mn::Xor),
        mnemonic("shl"@) == Some(Mn::Shl),
        mnemonic("ashr"@) == Some(Mn::Ashr),
        mnemonic("fadd"@) == Some(Mn::Fadd),
        mnemonic("fsub"@) == Some(Mn::Fsub),
        mnemonic("fmul"@) == Some(Mn::Fmul),
        mnemonic("fdiv"@) == Some(Mn::Fdiv),
        mnemonic("fneg"@) == Some(Mn::Fneg),
        mnemonic("icmp"@) == Some(Mn::IntTest),
        mnemonic("fcmp"@) == Some(Mn::FloatTest),
        mnemonic("select"@) == Some(Mn::Select),
        mnemonic("sitofp"@) == Some(Mn::Sitofp),
        mnemonic("fptosi"@) == Some(Mn::Fptosi),
        mnemonic("zext"@) == Some(Mn::Zext),
        mnemonic("trunc"@) == Some(Mn::Trunc),
        mnemonic("bitcast"@) == Some(Mn::Bitcast),
        mnemonic("ptrtoint"@) == Some(Mn::Ptrtoint),
        mnemonic("inttoptr"@) == Some(Mn::Inttoptr),
        mnemonic("getelementptr"@) == Some(Mn::Gep),
        mnemonic("load"@) == Some(Mn::Load),
        mnemonic("call"@) == Some(Mn::Call),
{
    reveal(mnemonic);
    reveal_strlit("add");
    reveal_strlit("sub");
    reveal_strlit("mul");
    reveal_strlit("sdiv");
    reveal_strlit("srem");
    reveal_strlit("and");
    reveal_strlit("or");
    reveal_strlit("xor");
    reveal_strlit("shl");
    reveal_strlit("ashr");
    reveal_strlit("fadd");
    reveal_strlit("fsub");
    reveal_strlit("fmul");
    reveal_strlit("fdiv");
    reveal_strlit("fneg");
    reveal_strlit("icmp");
    reveal_strlit("fcmp");
    reveal_strlit("select");
    reveal_strlit("sitofp");
    reveal_strlit("fptosi");
    reveal_strlit("zext");
    reveal_strlit("trunc");
    reveal_strlit("bitcast");
    reveal_strlit("ptrtoint");
    reveal_strlit("inttoptr");
    reveal_strlit("getelementptr");
    reveal_strlit("load");
    reveal_strlit("call");
    assert("add"@[1] == 'd');
    assert("add"@[0] == 'a');
    assert("sub"@[1] == 'u');
    assert("sub"@[0] == 's');
    assert("mul"@[1] == 'u');
    assert("mul"@[0] == 'm');
    assert("and"@[1] == 'n');
    assert("and"@[0] == 'a');
    assert("xor"@[1] == 'o');
    assert("xor"@[0] == 'x');
    assert("shl"@[1] == 'h');
    assert("shl"@[0] == 's');
    assert("sdiv"@[1] == 'd');
    assert("sdiv"@[0] == 's');
    assert("srem"@[1] == 'r');
    assert("srem"@[0] == 's');
    assert("ashr"@[1] == 's');
    assert("ashr"@[0] == 'a');
    assert("fadd"@[1] == 'a');
    assert("fadd"@[0] == 'f');
    assert("fsub"@[1] == 's');
    assert("fsub"@[0] == 'f');
    assert("fmul"@[1] == 'm');
    assert("fmul"@[0] == 'f');
    assert("fdiv"@[1] == 'd');
    assert("fdiv"@[0] == 'f');
    assert("fneg"@[1] == 'n');
    assert("fneg"@[0] == 'f');
    assert("icmp"@[1] == 'c');
    assert("icmp"@[0] == 'i');
    assert("fcmp"@[1] == 'c');
    assert("fcmp"@[0] == 'f');
    assert("zext"@[1] == 'e');
    assert("zext"@[0] == 'z');
    assert("load"@[1] == 'o');
    assert("load"@[0] == 'l');
    assert("call"@[1] == 'a');
    assert("call"@[0] == 'c');
    assert("select"@[1] == 'e');
    assert("sitofp"@[1] == 'i');
    assert("fptosi"@[1] == 'p');
    assert("ptrtoint"@[0] == 'p');
    assert("inttoptr"@[0] == 'i');
    assert("add"@.len() == 3);
    assert("sub"@.len() == 3);
    assert("mul"@.len() == 3);
    assert("sdiv"@.len() == 4);
    assert("srem"@.len() == 4);
    assert("and"@.len() == 3);
    assert("or"@.len() == 2);
    assert("xor"@.len() == 3);
    assert("shl"@.len() == 3);
    assert("ashr"@.len() == 4);
    assert("fadd"@.len() == 4);
    assert("fsub"@.len() == 4);
    assert("fmul"@.len() == 4);
    assert("fdiv"@.len() == 4);
    assert("fneg"@.len() == 4);
    assert("icmp"@.len() == 4);
    assert("fcmp"@.len() == 4);
    assert("select"@.len() == 6);
    assert("sitofp"@.len() == 6);
    assert("fptosi"@.len() == 6);
    assert("zext"@.len() == 4);
    assert("trunc"@.len() == 5);
    assert("bitcast"@.len() == 7);
    assert("ptrtoint"@.len() == 8);
    assert("inttoptr"@.len() == 8);
    assert("getelementptr"@.len() == 13);
    assert("load"@.len() == 4);
    assert("call"@.len() == 4);
}

pub proof fn lemma_widths()
    ensures
        width("i1"@) == 1,
        width("i8"@) == 8,
        width("i64"@) == 64,
        width("double"@) == 0,
        width("ptr"@) == -1,
{
    reveal(width);
    reveal_strlit("i1");
    reveal_strlit("i8");
    reveal_strlit("i64");
    reveal_strlit("ptr");
    reveal_strlit("double");
    assert("i1"@[1] == '1');
    assert("i8"@[1] == '8');
    assert("i64"@[0] == 'i');
    assert("ptr"@[0] == 'p');
    assert("i1"@.len() == 2);
    assert("i8"@.len() == 2);
    assert("i64"@.len() == 3);
    assert("ptr"@.len() == 3);
    assert("double"@.len() == 6);
}

pub proof fn lemma_int_tests(pr: Pred, a: int, b: int)
    ensures
        int_test(pred_text(pr), a, b) == compares(pr, a, b),
        pred_text(pr) == "eq"@ <==> pr == Pred::Eq,
        pred_text(pr) == "ne"@ <==> pr == Pred::Ne,
{
    reveal(int_test);
    reveal_strlit("eq");
    reveal_strlit("ne");
    reveal_strlit("slt");
    reveal_strlit("sle");
    reveal_strlit("sgt");
    reveal_strlit("sge");
    reveal_strlit("ult");
    reveal_strlit("uge");
    assert("eq"@[0] == 'e');
    assert("ne"@[0] == 'n');
    assert("slt"@[1] == 'l');
    assert("slt"@[0] == 's');
    assert("slt"@[2] == 't');
    assert("sle"@[1] == 'l');
    assert("sle"@[0] == 's');
    assert("sle"@[2] == 'e');
    assert("sgt"@[1] == 'g');
    assert("sgt"@[0] == 's');
    assert("sgt"@[2] == 't');
    assert("sge"@[1] == 'g');
    assert("sge"@[0] == 's');
    assert("sge"@[2] == 'e');
    assert("ult"@[1] == 'l');
    assert("ult"@[0] == 'u');
    assert("ult"@[2] == 't');
    assert("uge"@[1] == 'g');
    assert("uge"@[0] == 'u');
    assert("uge"@[2] == 'e');
    assert("eq"@.len() == 2);
    assert("ne"@.len() == 2);
    assert("slt"@.len() == 3);
    assert("sle"@.len() == 3);
    assert("sgt"@.len() == 3);
    assert("sge"@.len() == 3);
    assert("ult"@.len() == 3);
    assert("uge"@.len() == 3);
}

pub proof fn lemma_float_tests(pr: Pred)
    requires
        !(pr is Below) && !(pr is AtLeast),
    ensures
        float_test(float_pred_text(pr)) == Some(pr),
{
    reveal(float_test);
    reveal_strlit("oeq");
    reveal_strlit("one");
    reveal_strlit("olt");
    reveal_strlit("ole");
    reveal_strlit("ogt");
    reveal_strlit("oge");
    assert("oeq"@[1] == 'e');
    assert("oeq"@[2] == 'q');
    assert("one"@[1] == 'n');
    assert("one"@[2] == 'e');
    assert("olt"@[1] == 'l');
    assert("olt"@[2] == 't');
    assert("ole"@[1] == 'l');
    assert("ole"@[2] == 'e');
    assert("ogt"@[1] == 'g');
    assert("ogt"@[2] == 't');
    assert("oge"@[1] == 'g');
    assert("oge"@[2] == 'e');
    assert("oeq"@.len() == 3);
    assert("one"@.len() == 3);
    assert("olt"@.len() == 3);
    assert("ole"@.len() == 3);
    assert("ogt"@.len() == 3);
    assert("oge"@.len() == 3);
}

pub proof fn lemma_rt_solid(f: Rt)
    ensures
        is_solid(rt_text(f)),
        rt_text(f).len() > 0,
{
    match f {
        Rt::Alloc => {
            reveal_strlit("lumo_alloc");
        },
        Rt::Realloc => {
            reveal_strlit("lumo_realloc");
        },
        Rt::StrLen => {
            reveal_strlit("lumo_str_len");
        },
        Rt::StrCpy => {
            reveal_strlit("lumo_str_cpy");
        },
        Rt::StrCat => {
            reveal_strlit("lumo_str_cat");
        },
        Rt::StrCmp => {
            reveal_strlit("lumo_str_cmp");
        },
        Rt::FormatInt => {
            reveal_strlit("lumo_format_int");
        },
        Rt::FormatFloat => {
            reveal_strlit("lumo_format_float");
        },
        Rt::ParseInt => {
            reveal_strlit("lumo_parse_int");
        },
        Rt::ParseFloat => {
            reveal_strlit("lumo_parse_float");
        },
        Rt::IsInt => {
            reveal_strlit("lumo_is_int");
        },
        Rt::IsFloat => {
            reveal_strlit("lumo_is_float");
        },
        Rt::Sqrt => {
            reveal_strlit("lumo_sqrt");
        },
        Rt::Floor => {
            reveal_strlit("lumo_floor");
        },
        Rt::Ceil => {
            reveal_strlit("lumo_ceil");
        },
        Rt::Fabs => {
            reveal_strlit("lumo_fabs");
        },
        Rt::MinNum => {
            reveal_strlit("lumo_min_num");
        },
        Rt::MaxNum => {
            reveal_strlit("lumo_max_num");
        },
        Rt::Pow => {
            reveal_strlit("lumo_pow");
        },
        Rt::PrintInt => {
            reveal_strlit("lumo_print_int");
        },
        Rt::PrintFloat => {
            reveal_strlit("lumo_print_float");
        },
        Rt::PrintStr => {
            reveal_strlit("lumo_print_str");
        },
        Rt::Fgets => {
            reveal_strlit("lumo_read_line");
        },
        Rt::NewlinePos => {
            reveal_strlit("lumo_newline_pos");
        },
        Rt::ReadFile => {
            reveal_strlit("lumo_read_file");
        },
        Rt::WriteFile => {
            reveal_strlit("lumo_write_file");
        },
        Rt::Substr => {
            reveal_strlit("lumo_substr");
        },
        Rt::Split => {
            reveal_strlit("lumo_split");
        },
        Rt::Join => {
            reveal_strlit("lumo_join");
        },
        Rt::ToCase => {
            reveal_strlit("lumo_to_case");
        },
        Rt::Trim => {
            reveal_strlit("lumo_trim");
        },
        Rt::Find => {
            reveal_strlit("lumo_find");
        },
        Rt::HasAffix => {
            reveal_strlit("lumo_has_affix");
        },
        Rt::Repeat => {
            reveal_strlit("lumo_repeat");
        },
        Rt::ArraySlice => {
            reveal_strlit("lumo_array_slice");
        },
        Rt::SortInt => {
            reveal_strlit("lumo_sort_int");
        },
        Rt::SortFloat => {
            reveal_strlit("lumo_sort_float");
        },
        Rt::SortStr => {
            reveal_strlit("lumo_sort_str");
        },
        Rt::Reverse => {
            reveal_strlit("lumo_array_reverse");
        },
        Rt::StrHash => {
            reveal_strlit("lumo_str_hash");
        },
        Rt::MapNew => {
            reveal_strlit("lumo_map_new");
        },
        Rt::MapPut => {
            reveal_strlit("lumo_map_put");
        },
        Rt::MapGet => {
            reveal_strlit("lumo_map_get");
        },
        Rt::MapHas => {
            reveal_strlit("lumo_map_has");
        },
        Rt::MapDel => {
            reveal_strlit("lumo_map_del");
        },
        Rt::MapKeys => {
            reveal_strlit("lumo_map_keys");
        },
    }
}

/// The name of a function, with the sign before it.
pub open spec fn rt_word(f: Rt) -> Seq<char> {
    match f {
        Rt::Alloc => "@lumo_alloc"@,
        Rt::Realloc => "@lumo_realloc"@,
        Rt::StrLen => "@lumo_str_len"@,
        Rt::StrCpy => "@lumo_str_cpy"@,
        Rt::StrCat => "@lumo_str_cat"@,
        Rt::StrCmp => "@lumo_str_cmp"@,
        Rt::FormatInt => "@lumo_format_int"@,
        Rt::FormatFloat => "@lumo_format_float"@,
        Rt::ParseInt => "@lumo_parse_int"@,
        Rt::ParseFloat => "@lumo_parse_float"@,
        Rt::IsInt => "@lumo_is_int"@,
        Rt::IsFloat => "@lumo_is_float"@,
        Rt::Sqrt => "@lumo_sqrt"@,
        Rt::Floor => "@lumo_floor"@,
        Rt::Ceil => "@lumo_ceil"@,
        Rt::Fabs => "@lumo_fabs"@,
        Rt::MinNum => "@lumo_min_num"@,
        Rt::MaxNum => "@lumo_max_num"@,
        Rt::Pow => "@lumo_pow"@,
        Rt::PrintInt => "@lumo_print_int"@,
        Rt::PrintFloat => "@lumo_print_float"@,
        Rt::PrintStr => "@lumo_print_str"@,
        Rt::Fgets => "@lumo_read_line"@,
        Rt::NewlinePos => "@lumo_newline_pos"@,
        Rt::ReadFile => "@lumo_read_file"@,
        Rt::WriteFile => "@lumo_write_file"@,
        Rt::Substr => "@lumo_substr"@,
        Rt::Split => "@lumo_split"@,
        Rt::Join => "@lumo_join"@,
        Rt::ToCase => "@lumo_to_case"@,
        Rt::Trim => "@lumo_trim"@,
        Rt::Find => "@lumo_find"@,
        Rt::HasAffix => "@lumo_has_affix"@,
        Rt::Repeat => "@lumo_repeat"@,
        Rt::ArraySlice => "@lumo_array_slice"@,
        Rt::SortInt => "@lumo_sort_int"@,
        Rt::SortFloat => "@lumo_sort_float"@,
        Rt::SortStr => "@lumo_sort_str"@,
        Rt::Reverse => "@lumo_array_reverse"@,
        Rt::StrHash => "@lumo_str_hash"@,
        Rt::MapNew => "@lumo_map_new"@,
        Rt::MapPut => "@lumo_map_put"@,
        Rt::MapGet => "@lumo_map_get"@,
        Rt::MapHas => "@lumo_map_has"@,
        Rt::MapDel => "@lumo_map_del"@,
        Rt::MapKeys => "@lumo_map_keys"@,
    }
}

pub proof fn lemma_rt_word(f: Rt)
    ensures
        rt_word(f) == "@"@ + rt_text(f),
{
    reveal_strlit("@");
    match f {
        Rt::Alloc => {
            reveal_strlit("lumo_alloc");
            reveal_strlit("@lumo_alloc");
            assert(rt_word(f) =~= "@"@ + rt_text(f));
        },
        Rt::Realloc => {
            reveal_strlit("lumo_realloc");
            reveal_strlit("@lumo_realloc");
            assert(rt_word(f) =~= "@"@ + rt_text(f));
        },
        Rt::StrLen => {
            reveal_strlit("lumo_str_len");
            reveal_strlit("@lumo_str_len");
            assert(rt_word(f) =~= "@"@ + rt_text(f));
        },
        Rt::StrCpy => {
            reveal_strlit("lumo_str_cpy");
            reveal_strlit("@lumo_str_cpy");
            assert(rt_word(f) =~= "@"@ + rt_text(f));
        },
        Rt::StrCat => {
            reveal_strlit("lumo_str_cat");
            reveal_strlit("@lumo_str_cat");
            assert(rt_word(f) =~= "@"@ + rt_text(f));
        },
        Rt::StrCmp => {
            reveal_strlit("lumo_str_cmp");
            reveal_strlit("@lumo_str_cmp");
            assert(rt_word(f) =~= "@"@ + rt_text(f));
        },
        Rt::FormatInt => {
            reveal_strlit("lumo_format_int");
            reveal_strlit("@lumo_format_int");
            assert(rt_word(f) =~= "@"@ + rt_text(f));
        },
        Rt::FormatFloat => {
            reveal_strlit("lumo_format_float");
            reveal_strlit("@lumo_format_float");
            assert(rt_word(f) =~= "@"@ + rt_text(f));
        },
        Rt::ParseInt => {
            reveal_strlit("lumo_parse_int");
            reveal_strlit("@lumo_parse_int");
            assert(rt_word(f) =~= "@"@ + rt_text(f));
        },
        Rt::ParseFloat => {
            reveal_strlit("lumo_parse_float");
            reveal_strlit("@lumo_parse_float");
            assert(rt_word(f) =~= "@"@ + rt_text(f));
        },
        Rt::IsInt => {
            reveal_strlit("lumo_is_int");
            reveal_strlit("@lumo_is_int");
            assert(rt_word(f) =~= "@"@ + rt_text(f));
        },
        Rt::IsFloat => {
            reveal_strlit("lumo_is_float");
            reveal_strlit("@lumo_is_float");
            assert(rt_word(f) =~= "@"@ + rt_text(f));
        },
        Rt::Sqrt => {
            reveal_strlit("lumo_sqrt");
            reveal_strlit("@lumo_sqrt");
            assert(rt_word(f) =~= "@"@ + rt_text(f));
        },
        Rt::Floor => {
            reveal_strlit("lumo_floor");
            reveal_strlit("@lumo_floor");
            assert(rt_word(f) =~= "@"@ + rt_text(f));
        },
        Rt::Ceil => {
            reveal_strlit("lumo_ceil");
            reveal_strlit("@lumo_ceil");
            assert(rt_word(f) =~= "@"@ + rt_text(f));
        },
        Rt::Fabs => {
            reveal_strlit("lumo_fabs");
            reveal_strlit("@lumo_fabs");
            assert(rt_word(f) =~= "@"@ + rt_text(f));
        },
        Rt::MinNum => {
            reveal_strlit("lumo_min_num");
            reveal_strlit("@lumo_min_num");
            assert(rt_word(f) =~= "@"@ + rt_text(f));
        },
        Rt::MaxNum => {
            reveal_strlit("lumo_max_num");
            reveal_strlit("@lumo_max_num");
            assert(rt_word(f) =~= "@"@ + rt_text(f));
        },
        Rt::Pow => {
            reveal_strlit("lumo_pow");
            reveal_strlit("@lumo_pow");
            assert(rt_word(f) =~= "@"@ + rt_text(f));
        },
        Rt::PrintInt => {
            reveal_strlit("lumo_print_int");
            reveal_strlit("@lumo_print_int");
            assert(rt_word(f) =~= "@"@ + rt_text(f));
        },
        Rt::PrintFloat => {
            reveal_strlit("lumo_print_float");
            reveal_strlit("@lumo_print_float");
            assert(rt_word(f) =~= "@"@ + rt_text(f));
        },
        Rt::PrintStr => {
            reveal_strlit("lumo_print_str");
            reveal_strlit("@lumo_print_str");
            assert(rt_word(f) =~= "@"@ + rt_text(f));
        },
        Rt::Fgets => {
            reveal_strlit("lumo_read_line");
            reveal_strlit("@lumo_read_line");
            assert(rt_word(f) =~= "@"@ + rt_text(f));
        },
        Rt::NewlinePos => {
            reveal_strlit("lumo_newline_pos");
            reveal_strlit("@lumo_newline_pos");
            assert(rt_word(f) =~= "@"@ + rt_text(f));
        },
        Rt::ReadFile => {
            reveal_strlit("lumo_read_file");
            reveal_strlit("@lumo_read_file");
            assert(rt_word(f) =~= "@"@ + rt_text(f));
        },
        Rt::WriteFile => {
            reveal_strlit("lumo_write_file");
            reveal_strlit("@lumo_write_file");
            assert(rt_word(f) =~= "@"@ + rt_text(f));
        },
        Rt::Substr => {
            reveal_strlit("lumo_substr");
            reveal_strlit("@lumo_substr");
            assert(rt_word(f) =~= "@"@ + rt_text(f));
        },
        Rt::Split => {
            reveal_strlit("lumo_split");
            reveal_strlit("@lumo_split");
            assert(rt_word(f) =~= "@"@ + rt_text(f));
        },
        Rt::Join => {
            reveal_strlit("lumo_join");
            reveal_strlit("@lumo_join");
            assert(rt_word(f) =~= "@"@ + rt_text(f));
        },
        Rt::ToCase => {
            reveal_strlit("lumo_to_case");
            reveal_strlit("@lumo_to_case");
            assert(rt_word(f) =~= "@"@ + rt_text(f));
        },
        Rt::Trim => {
            reveal_strlit("lumo_trim");
            reveal_strlit("@lumo_trim");
            assert(rt_word(f) =~= "@"@ + rt_text(f));
        },
        Rt::Find => {
            reveal_strlit("lumo_find");
            reveal_strlit("@lumo_find");
            assert(rt_word(f) =~= "@"@ + rt_text(f));
        },
        Rt::HasAffix => {
            reveal_strlit("lumo_has_affix");
            reveal_strlit("@lumo_has_affix");
            assert(rt_word(f) =~= "@"@ + rt_text(f));
        },
        Rt::Repeat => {
            reveal_strlit("lumo_repeat");
            reveal_strlit("@lumo_repeat");
            assert(rt_word(f) =~= "@"@ + rt_text(f));
        },
        Rt::ArraySlice => {
            reveal_strlit("lumo_array_slice");
            reveal_strlit("@lumo_array_slice");
            assert(rt_word(f) =~= "@"@ + rt_text(f));
        },
        Rt::SortInt => {
            reveal_strlit("lumo_sort_int");
            reveal_strlit("@lumo_sort_int");
            assert(rt_word(f) =~= "@"@ + rt_text(f));
        },
        Rt::SortFloat => {
            reveal_strlit("lumo_sort_float");
            reveal_strlit("@lumo_sort_float");
            assert(rt_word(f) =~= "@"@ + rt_text(f));
        },
        Rt::SortStr => {
            reveal_strlit("lumo_sort_str");
            reveal_strlit("@lumo_sort_str");
            assert(rt_word(f) =~= "@"@ + rt_text(f));
        },
        Rt::Reverse => {
            reveal_strlit("lumo_array_reverse");
            reveal_strlit("@lumo_array_reverse");
            assert(rt_word(f) =~= "@"@ + rt_text(f));
        },
        Rt::StrHash => {
            reveal_strlit("lumo_str_hash");
            reveal_strlit("@lumo_str_hash");
            assert(rt_word(f) =~= "@"@ + rt_text(f));
        },
        Rt::MapNew => {
            reveal_strlit("lumo_map_new");
            reveal_strlit("@lumo_map_new");
            assert(rt_word(f) =~= "@"@ + rt_text(f));
        },
        Rt::MapPut => {
            reveal_strlit("lumo_map_put");
            reveal_strlit("@lumo_map_put");
            assert(rt_word(f) =~= "@"@ + rt_text(f));
        },
        Rt::MapGet => {
            reveal_strlit("lumo_map_get");
            reveal_strlit("@lumo_map_get");
            assert(rt_word(f) =~= "@"@ + rt_text(f));
        },
        Rt::MapHas => {
            reveal_strlit("lumo_map_has");
            reveal_strlit("@lumo_map_has");
            assert(rt_word(f) =~= "@"@ + rt_text(f));
        },
        Rt::MapDel => {
            reveal_strlit("lumo_map_del");
            reveal_strlit("@lumo_map_del");
            assert(rt_word(f) =~= "@"@ + rt_text(f));
        },
        Rt::MapKeys => {
            reveal_strlit("lumo_map_keys");
            reveal_strlit("@lumo_map_keys");
            assert(rt_word(f) =~= "@"@ + rt_text(f));
        },
    }
}

pub proof fn lemma_linked(f: Rt)
    ensures
        linked(rt_word(f)) == Some(f),
{
    reveal(linked);
    reveal(linked_on);
    reveal_strlit("@lumo_alloc");
    reveal_strlit("@lumo_realloc");
    reveal_strlit("@lumo_str_len");
    reveal_strlit("@lumo_str_cpy");
    reveal_strlit("@lumo_str_cat");
    reveal_strlit("@lumo_str_cmp");
    reveal_strlit("@lumo_format_int");
    reveal_strlit("@lumo_format_float");
    reveal_strlit("@lumo_parse_int");
    reveal_strlit("@lumo_parse_float");
    reveal_strlit("@lumo_is_int");
    reveal_strlit("@lumo_is_float");
    reveal_strlit("@lumo_sqrt");
    reveal_strlit("@lumo_floor");
    reveal_strlit("@lumo_ceil");
    reveal_strlit("@lumo_fabs");
    reveal_strlit("@lumo_min_num");
    reveal_strlit("@lumo_max_num");
    reveal_strlit("@lumo_pow");
    reveal_strlit("@lumo_print_int");
    reveal_strlit("@lumo_print_float");
    reveal_strlit("@lumo_print_str");
    reveal_strlit("@lumo_read_line");
    reveal_strlit("@lumo_newline_pos");
    reveal_strlit("@lumo_read_file");
    reveal_strlit("@lumo_write_file");
    reveal_strlit("@lumo_substr");
    reveal_strlit("@lumo_split");
    reveal_strlit("@lumo_join");
    reveal_strlit("@lumo_to_case");
    reveal_strlit("@lumo_trim");
    reveal_strlit("@lumo_find");
    reveal_strlit("@lumo_has_affix");
    reveal_strlit("@lumo_repeat");
    reveal_strlit("@lumo_array_slice");
    reveal_strlit("@lumo_sort_int");
    reveal_strlit("@lumo_sort_float");
    reveal_strlit("@lumo_sort_str");
    reveal_strlit("@lumo_array_reverse");
    reveal_strlit("@lumo_str_hash");
    reveal_strlit("@lumo_map_new");
    reveal_strlit("@lumo_map_put");
    reveal_strlit("@lumo_map_get");
    reveal_strlit("@lumo_map_has");
    reveal_strlit("@lumo_map_del");
    reveal_strlit("@lumo_map_keys");
    assert("@lumo_sqrt"@[7] == 'q');
    assert("@lumo_ceil"@[7] == 'e');
    assert("@lumo_fabs"@[7] == 'a');
    assert("@lumo_join"@[7] == 'o');
    assert("@lumo_trim"@[7] == 'r');
    assert("@lumo_find"@[7] == 'i');
    assert("@lumo_alloc"@[6] == 'a');
    assert("@lumo_floor"@[6] == 'f');
    assert("@lumo_split"@[6] == 's');
    assert("@lumo_is_int"@[6] == 'i');
    assert("@lumo_substr"@[6] == 's');
    assert("@lumo_repeat"@[6] == 'r');
    assert("@lumo_realloc"@[12] == 'c');
    assert("@lumo_realloc"@[7] == 'e');
    assert("@lumo_realloc"@[10] == 'l');
    assert("@lumo_str_len"@[12] == 'n');
    assert("@lumo_str_len"@[7] == 't');
    assert("@lumo_str_len"@[10] == 'l');
    assert("@lumo_str_cpy"@[12] == 'y');
    assert("@lumo_str_cpy"@[7] == 't');
    assert("@lumo_str_cpy"@[10] == 'c');
    assert("@lumo_str_cat"@[12] == 't');
    assert("@lumo_str_cat"@[7] == 't');
    assert("@lumo_str_cat"@[10] == 'c');
    assert("@lumo_str_cmp"@[12] == 'p');
    assert("@lumo_str_cmp"@[7] == 't');
    assert("@lumo_str_cmp"@[10] == 'c');
    assert("@lumo_min_num"@[12] == 'm');
    assert("@lumo_min_num"@[7] == 'i');
    assert("@lumo_min_num"@[10] == 'n');
    assert("@lumo_max_num"@[12] == 'm');
    assert("@lumo_max_num"@[7] == 'a');
    assert("@lumo_max_num"@[10] == 'n');
    assert("@lumo_to_case"@[12] == 'e');
    assert("@lumo_to_case"@[7] == 'o');
    assert("@lumo_to_case"@[10] == 'a');
    assert("@lumo_map_new"@[12] == 'w');
    assert("@lumo_map_new"@[7] == 'a');
    assert("@lumo_map_new"@[10] == 'n');
    assert("@lumo_map_put"@[12] == 't');
    assert("@lumo_map_put"@[7] == 'a');
    assert("@lumo_map_put"@[10] == 'p');
    assert("@lumo_map_get"@[12] == 't');
    assert("@lumo_map_get"@[7] == 'a');
    assert("@lumo_map_get"@[10] == 'g');
    assert("@lumo_map_has"@[12] == 's');
    assert("@lumo_map_has"@[7] == 'a');
    assert("@lumo_map_has"@[10] == 'h');
    assert("@lumo_map_del"@[12] == 'l');
    assert("@lumo_map_del"@[7] == 'a');
    assert("@lumo_map_del"@[10] == 'd');
    assert("@lumo_is_float"@[11] == 'o');
    assert("@lumo_sort_int"@[11] == 'i');
    assert("@lumo_sort_str"@[11] == 's');
    assert("@lumo_str_hash"@[11] == 'a');
    assert("@lumo_map_keys"@[11] == 'e');
    assert("@lumo_parse_int"@[8] == 'r');
    assert("@lumo_parse_int"@[13] == 'n');
    assert("@lumo_print_int"@[8] == 'i');
    assert("@lumo_print_int"@[13] == 'n');
    assert("@lumo_print_str"@[8] == 'i');
    assert("@lumo_print_str"@[13] == 't');
    assert("@lumo_read_line"@[8] == 'a');
    assert("@lumo_read_line"@[13] == 'n');
    assert("@lumo_read_file"@[8] == 'a');
    assert("@lumo_read_file"@[13] == 'l');
    assert("@lumo_has_affix"@[8] == 's');
    assert("@lumo_has_affix"@[13] == 'i');
    assert("@lumo_format_int"@[6] == 'f');
    assert("@lumo_write_file"@[6] == 'w');
    assert("@lumo_sort_float"@[6] == 's');
    assert("@lumo_parse_float"@[9] == 's');
    assert("@lumo_print_float"@[9] == 'n');
    assert("@lumo_newline_pos"@[9] == 'l');
    assert("@lumo_array_slice"@[9] == 'a');
    assert("@lumo_alloc"@.len() == 11);
    assert("@lumo_realloc"@.len() == 13);
    assert("@lumo_str_len"@.len() == 13);
    assert("@lumo_str_cpy"@.len() == 13);
    assert("@lumo_str_cat"@.len() == 13);
    assert("@lumo_str_cmp"@.len() == 13);
    assert("@lumo_format_int"@.len() == 16);
    assert("@lumo_format_float"@.len() == 18);
    assert("@lumo_parse_int"@.len() == 15);
    assert("@lumo_parse_float"@.len() == 17);
    assert("@lumo_is_int"@.len() == 12);
    assert("@lumo_is_float"@.len() == 14);
    assert("@lumo_sqrt"@.len() == 10);
    assert("@lumo_floor"@.len() == 11);
    assert("@lumo_ceil"@.len() == 10);
    assert("@lumo_fabs"@.len() == 10);
    assert("@lumo_min_num"@.len() == 13);
    assert("@lumo_max_num"@.len() == 13);
    assert("@lumo_pow"@.len() == 9);
    assert("@lumo_print_int"@.len() == 15);
    assert("@lumo_print_float"@.len() == 17);
    assert("@lumo_print_str"@.len() == 15);
    assert("@lumo_read_line"@.len() == 15);
    assert("@lumo_newline_pos"@.len() == 17);
    assert("@lumo_read_file"@.len() == 15);
    assert("@lumo_write_file"@.len() == 16);
    assert("@lumo_substr"@.len() == 12);
    assert("@lumo_split"@.len() == 11);
    assert("@lumo_join"@.len() == 10);
    assert("@lumo_to_case"@.len() == 13);
    assert("@lumo_trim"@.len() == 10);
    assert("@lumo_find"@.len() == 10);
    assert("@lumo_has_affix"@.len() == 15);
    assert("@lumo_repeat"@.len() == 12);
    assert("@lumo_array_slice"@.len() == 17);
    assert("@lumo_sort_int"@.len() == 14);
    assert("@lumo_sort_float"@.len() == 16);
    assert("@lumo_sort_str"@.len() == 14);
    assert("@lumo_array_reverse"@.len() == 19);
    assert("@lumo_str_hash"@.len() == 14);
    assert("@lumo_map_new"@.len() == 13);
    assert("@lumo_map_put"@.len() == 13);
    assert("@lumo_map_get"@.len() == 13);
    assert("@lumo_map_has"@.len() == 13);
    assert("@lumo_map_del"@.len() == 13);
    assert("@lumo_map_keys"@.len() == 14);
}

pub proof fn lemma_new_names()
    ensures
        linked("@lumo_new"@) is None,
        linked("@lumo_new_tagged"@) is None,
        "@lumo_new"@ != "@lumo_new_tagged"@,
{
    reveal(linked);
    reveal(linked_on);
    reveal_strlit("@lumo_new");
    reveal_strlit("@lumo_new_tagged");
    reveal_strlit("@lumo_alloc");
    reveal_strlit("@lumo_realloc");
    reveal_strlit("@lumo_str_len");
    reveal_strlit("@lumo_str_cpy");
    reveal_strlit("@lumo_str_cat");
    reveal_strlit("@lumo_str_cmp");
    reveal_strlit("@lumo_format_int");
    reveal_strlit("@lumo_format_float");
    reveal_strlit("@lumo_parse_int");
    reveal_strlit("@lumo_parse_float");
    reveal_strlit("@lumo_is_int");
    reveal_strlit("@lumo_is_float");
    reveal_strlit("@lumo_sqrt");
    reveal_strlit("@lumo_floor");
    reveal_strlit("@lumo_ceil");
    reveal_strlit("@lumo_fabs");
    reveal_strlit("@lumo_min_num");
    reveal_strlit("@lumo_max_num");
    reveal_strlit("@lumo_pow");
    reveal_strlit("@lumo_print_int");
    reveal_strlit("@lumo_print_float");
    reveal_strlit("@lumo_print_str");
    reveal_strlit("@lumo_read_line");
    reveal_strlit("@lumo_newline_pos");
    reveal_strlit("@lumo_read_file");
    reveal_strlit("@lumo_write_file");
    reveal_strlit("@lumo_substr");
    reveal_strlit("@lumo_split");
    reveal_strlit("@lumo_join");
    reveal_strlit("@lumo_to_case");
    reveal_strlit("@lumo_trim");
    reveal_strlit("@lumo_find");
    reveal_strlit("@lumo_has_affix");
    reveal_strlit("@lumo_repeat");
    reveal_strlit("@lumo_array_slice");
    reveal_strlit("@lumo_sort_int");
    reveal_strlit("@lumo_sort_float");
    reveal_strlit("@lumo_sort_str");
    reveal_strlit("@lumo_array_reverse");
    reveal_strlit("@lumo_str_hash");
    reveal_strlit("@lumo_map_new");
    reveal_strlit("@lumo_map_put");
    reveal_strlit("@lumo_map_get");
    reveal_strlit("@lumo_map_has");
    reveal_strlit("@lumo_map_del");
    reveal_strlit("@lumo_map_keys");
    assert("@lumo_new"@[6] == 'n');
    assert("@lumo_pow"@[6] == 'p');
    assert("@lumo_sqrt"@[7] == 'q');
    assert("@lumo_ceil"@[7] == 'e');
    assert("@lumo_fabs"@[7] == 'a');
    assert("@lumo_join"@[7] == 'o');
    assert("@lumo_trim"@[7] == 'r');
    assert("@lumo_find"@[7] == 'i');
    assert("@lumo_alloc"@[6] == 'a');
    assert("@lumo_floor"@[6] == 'f');
    assert("@lumo_split"@[6] == 's');
    assert("@lumo_is_int"@[6] == 'i');
    assert("@lumo_substr"@[6] == 's');
    assert("@lumo_repeat"@[6] == 'r');
    assert("@lumo_realloc"@[12] == 'c');
    assert("@lumo_realloc"@[7] == 'e');
    assert("@lumo_realloc"@[10] == 'l');
    assert("@lumo_str_len"@[12] == 'n');
    assert("@lumo_str_len"@[7] == 't');
    assert("@lumo_str_len"@[10] == 'l');
    assert("@lumo_str_cpy"@[12] == 'y');
    assert("@lumo_str_cpy"@[7] == 't');
    assert("@lumo_str_cpy"@[10] == 'c');
    assert("@lumo_str_cat"@[12] == 't');
    assert("@lumo_str_cat"@[7] == 't');
    assert("@lumo_str_cat"@[10] == 'c');
    assert("@lumo_str_cmp"@[12] == 'p');
    assert("@lumo_str_cmp"@[7] == 't');
    assert("@lumo_str_cmp"@[10] == 'c');
    assert("@lumo_min_num"@[12] == 'm');
    assert("@lumo_min_num"@[7] == 'i');
    assert("@lumo_min_num"@[10] == 'n');
    assert("@lumo_max_num"@[12] == 'm');
    assert("@lumo_max_num"@[7] == 'a');
    assert("@lumo_max_num"@[10] == 'n');
    assert("@lumo_to_case"@[12] == 'e');
    assert("@lumo_to_case"@[7] == 'o');
    assert("@lumo_to_case"@[10] == 'a');
    assert("@lumo_map_new"@[12] == 'w');
    assert("@lumo_map_new"@[7] == 'a');
    assert("@lumo_map_new"@[10] == 'n');
    assert("@lumo_map_put"@[12] == 't');
    assert("@lumo_map_put"@[7] == 'a');
    assert("@lumo_map_put"@[10] == 'p');
    assert("@lumo_map_get"@[12] == 't');
    assert("@lumo_map_get"@[7] == 'a');
    assert("@lumo_map_get"@[10] == 'g');
    assert("@lumo_map_has"@[12] == 's');
    assert("@lumo_map_has"@[7] == 'a');
    assert("@lumo_map_has"@[10] == 'h');
    assert("@lumo_map_del"@[12] == 'l');
    assert("@lumo_map_del"@[7] == 'a');
    assert("@lumo_map_del"@[10] == 'd');
    assert("@lumo_is_float"@[11] == 'o');
    assert("@lumo_sort_int"@[11] == 'i');
    assert("@lumo_sort_str"@[11] == 's');
    assert("@lumo_str_hash"@[11] == 'a');
    assert("@lumo_map_keys"@[11] == 'e');
    assert("@lumo_parse_int"@[8] == 'r');
    assert("@lumo_parse_int"@[13] == 'n');
    assert("@lumo_print_int"@[8] == 'i');
    assert("@lumo_print_int"@[13] == 'n');
    assert("@lumo_print_str"@[8] == 'i');
    assert("@lumo_print_str"@[13] == 't');
    assert("@lumo_read_line"@[8] == 'a');
    assert("@lumo_read_line"@[13] == 'n');
    assert("@lumo_read_file"@[8] == 'a');
    assert("@lumo_read_file"@[13] == 'l');
    assert("@lumo_has_affix"@[8] == 's');
    assert("@lumo_has_affix"@[13] == 'i');
    assert("@lumo_new_tagged"@[6] == 'n');
    assert("@lumo_format_int"@[6] == 'f');
    assert("@lumo_write_file"@[6] == 'w');
    assert("@lumo_sort_float"@[6] == 's');
    assert("@lumo_parse_float"@[9] == 's');
    assert("@lumo_print_float"@[9] == 'n');
    assert("@lumo_newline_pos"@[9] == 'l');
    assert("@lumo_array_slice"@[9] == 'a');
    assert("@lumo_new"@.len() == 9);
    assert("@lumo_new_tagged"@.len() == 16);
    assert("@lumo_alloc"@.len() == 11);
    assert("@lumo_realloc"@.len() == 13);
    assert("@lumo_str_len"@.len() == 13);
    assert("@lumo_str_cpy"@.len() == 13);
    assert("@lumo_str_cat"@.len() == 13);
    assert("@lumo_str_cmp"@.len() == 13);
    assert("@lumo_format_int"@.len() == 16);
    assert("@lumo_format_float"@.len() == 18);
    assert("@lumo_parse_int"@.len() == 15);
    assert("@lumo_parse_float"@.len() == 17);
    assert("@lumo_is_int"@.len() == 12);
    assert("@lumo_is_float"@.len() == 14);
    assert("@lumo_sqrt"@.len() == 10);
    assert("@lumo_floor"@.len() == 11);
    assert("@lumo_ceil"@.len() == 10);
    assert("@lumo_fabs"@.len() == 10);
    assert("@lumo_min_num"@.len() == 13);
    assert("@lumo_max_num"@.len() == 13);
    assert("@lumo_pow"@.len() == 9);
    assert("@lumo_print_int"@.len() == 15);
    assert("@lumo_print_float"@.len() == 17);
    assert("@lumo_print_str"@.len() == 15);
    assert("@lumo_read_line"@.len() == 15);
    assert("@lumo_newline_pos"@.len() == 17);
    assert("@lumo_read_file"@.len() == 15);
    assert("@lumo_write_file"@.len() == 16);
    assert("@lumo_substr"@.len() == 12);
    assert("@lumo_split"@.len() == 11);
    assert("@lumo_join"@.len() == 10);
    assert("@lumo_to_case"@.len() == 13);
    assert("@lumo_trim"@.len() == 10);
    assert("@lumo_find"@.len() == 10);
    assert("@lumo_has_affix"@.len() == 15);
    assert("@lumo_repeat"@.len() == 12);
    assert("@lumo_array_slice"@.len() == 17);
    assert("@lumo_sort_int"@.len() == 14);
    assert("@lumo_sort_float"@.len() == 16);
    assert("@lumo_sort_str"@.len() == 14);
    assert("@lumo_array_reverse"@.len() == 19);
    assert("@lumo_str_hash"@.len() == 14);
    assert("@lumo_map_new"@.len() == 13);
    assert("@lumo_map_put"@.len() == 13);
    assert("@lumo_map_get"@.len() == 13);
    assert("@lumo_map_has"@.len() == 13);
    assert("@lumo_map_del"@.len() == 13);
    assert("@lumo_map_keys"@.len() == 14);
}


/// A word that starts with `@lumo_`.
pub open spec fn starts_lumo(w: Seq<char>) -> bool {
    w.len() > 5 && w[1] == 'l' && w[2] == 'u' && w[3] == 'm' && w[4] == 'o' && w[5] == '_'
}

/// The functions that programs are linked with have names that start alike.
pub proof fn lemma_linked_start(w: Seq<char>)
    requires
        linked(w) is Some || w == "@lumo_new"@ || w == "@lumo_new_tagged"@,
    ensures
        starts_lumo(w),
{
    reveal(linked);
    reveal(linked_on);
    reveal_strlit("@lumo_new");
    reveal_strlit("@lumo_new_tagged");
    reveal_strlit("@lumo_alloc");
    reveal_strlit("@lumo_realloc");
    reveal_strlit("@lumo_str_len");
    reveal_strlit("@lumo_str_cpy");
    reveal_strlit("@lumo_str_cat");
    reveal_strlit("@lumo_str_cmp");
    reveal_strlit("@lumo_format_int");
    reveal_strlit("@lumo_format_float");
    reveal_strlit("@lumo_parse_int");
    reveal_strlit("@lumo_parse_float");
    reveal_strlit("@lumo_is_int");
    reveal_strlit("@lumo_is_float");
    reveal_strlit("@lumo_sqrt");
    reveal_strlit("@lumo_floor");
    reveal_strlit("@lumo_ceil");
    reveal_strlit("@lumo_fabs");
    reveal_strlit("@lumo_min_num");
    reveal_strlit("@lumo_max_num");
    reveal_strlit("@lumo_pow");
    reveal_strlit("@lumo_print_int");
    reveal_strlit("@lumo_print_float");
    reveal_strlit("@lumo_print_str");
    reveal_strlit("@lumo_read_line");
    reveal_strlit("@lumo_newline_pos");
    reveal_strlit("@lumo_read_file");
    reveal_strlit("@lumo_write_file");
    reveal_strlit("@lumo_substr");
    reveal_strlit("@lumo_split");
    reveal_strlit("@lumo_join");
    reveal_strlit("@lumo_to_case");
    reveal_strlit("@lumo_trim");
    reveal_strlit("@lumo_find");
    reveal_strlit("@lumo_has_affix");
    reveal_strlit("@lumo_repeat");
    reveal_strlit("@lumo_array_slice");
    reveal_strlit("@lumo_sort_int");
    reveal_strlit("@lumo_sort_float");
    reveal_strlit("@lumo_sort_str");
    reveal_strlit("@lumo_array_reverse");
    reveal_strlit("@lumo_str_hash");
    reveal_strlit("@lumo_map_new");
    reveal_strlit("@lumo_map_put");
    reveal_strlit("@lumo_map_get");
    reveal_strlit("@lumo_map_has");
    reveal_strlit("@lumo_map_del");
    reveal_strlit("@lumo_map_keys");
}

} // verus!
