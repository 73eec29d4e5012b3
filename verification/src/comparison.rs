//! The memory-safety comparison of four languages, rendered as a text table.
use vstd::prelude::*;
use vstd::string::StringExecFns;

verus! {

broadcast use vstd::string::group_string_axioms;

/// How one language fares against four kinds of memory error.
pub struct SafetyComparison {
    pub language: &'static str,
    pub buffer_overflow: &'static str,
    pub use_after_free: &'static str,
    pub data_race: &'static str,
    pub null_deref: &'static str,
}

/// `s` padded on the right with spaces to at least `width` characters, as the
/// format specifier `{:<width}` lays it out.
pub open spec fn pad_right(s: Seq<char>, width: nat) -> Seq<char> {
    if s.len() < width {
        s + Seq::new((width - s.len()) as nat, |i: int| ' ')
    } else {
        s
    }
}

/// The table row for `c`: its five cells left-aligned in columns of 8, 14, 14,
/// 12 and 10 characters, between `|` separators.
pub open spec fn row_text(c: SafetyComparison) -> Seq<char> {
    "| "@ + pad_right(c.language@, 8) + " | "@ + pad_right(c.buffer_overflow@, 14) + " | "@
        + pad_right(c.use_after_free@, 14) + " | "@ + pad_right(c.data_race@, 12) + " | "@
        + pad_right(c.null_deref@, 10) + " |"@
}

/// Appends `s` to `out`, padded on the right with spaces to `width` characters.
pub fn push_padded(out: &mut String, s: &str, width: usize)
    ensures
        final(out)@ == old(out)@ + pad_right(s@, width as nat),
{
    out.append(s);
    let len = s.unicode_len();
    let mut k: usize = len;
    while k < width
        invariant
            len == s@.len(),
            len <= k,
            len < width ==> k <= width,
            len >= width ==> k == len,
            out@ == old(out)@ + s@ + Seq::new((k - len) as nat, |i: int| ' '),
        decreases width - k,
    {
        out.append(" ");
        proof {
            reveal_strlit(" ");
        }
        assert(out@ =~= old(out)@ + s@ + Seq::new((k + 1 - len) as nat, |i: int| ' '));
        k += 1;
    }
    if len >= width {
        assert(out@ =~= old(out)@ + s@);
        assert(out@ =~= old(out)@ + pad_right(s@, width as nat));
    } else {
        assert(k == width);
        let ghost spaces = Seq::new((width - len) as nat, |i: int| ' ');
        assert(Seq::new((k - len) as nat, |i: int| ' ') =~= spaces);
        assert(pad_right(s@, width as nat) == s@ + spaces);
        assert(out@ =~= old(out)@ + pad_right(s@, width as nat));
    }
}

impl SafetyComparison {
    /// The table row for this language (see `row_text`).
    pub fn row(&self) -> (res: String)
        ensures
            res@ == row_text(*self),
    {
        let mut out = String::new();
        out.append("| ");
        push_padded(&mut out, self.language, 8);
        out.append(" | ");
        push_padded(&mut out, self.buffer_overflow, 14);
        out.append(" | ");
        push_padded(&mut out, self.use_after_free, 14);
        out.append(" | ");
        push_padded(&mut out, self.data_race, 12);
        out.append(" | ");
        push_padded(&mut out, self.null_deref, 10);
        out.append(" |");
        out
    }
}

/// The four languages compared, in the order the table lists them.
pub open spec fn comparison_table() -> Seq<SafetyComparison> {
    seq![
        SafetyComparison {
            language: "Rust",
            buffer_overflow: "❌ 不可能",
            use_after_free: "❌ 不可能",
            data_race: "❌ 编译阻止",
            null_deref: "⚠️ Option",
        },
        SafetyComparison {
            language: "Zig",
            buffer_overflow: "⚠️ 可选检查",
            use_after_free: "⚠️ 手动",
            data_race: "⚠️ 手动",
            null_deref: "⚠️ 可选类型",
        },
        SafetyComparison {
            language: "C",
            buffer_overflow: "✅ 可能",
            use_after_free: "✅ 可能",
            data_race: "✅ 可能",
            null_deref: "✅ 可能",
        },
        SafetyComparison {
            language: "Python",
            buffer_overflow: "❌ 不可能",
            use_after_free: "❌ 不可能",
            data_race: "⚠️ GIL限制",
            null_deref: "✅ 可能",
        },
    ]
}

/// The four languages compared (see `comparison_table`).
pub fn comparisons() -> (res: Vec<SafetyComparison>)
    ensures
        res@ == comparison_table(),
{
    vec![
        SafetyComparison {
            language: "Rust",
            buffer_overflow: "❌ 不可能",
            use_after_free: "❌ 不可能",
            data_race: "❌ 编译阻止",
            null_deref: "⚠️ Option",
        },
        SafetyComparison {
            language: "Zig",
            buffer_overflow: "⚠️ 可选检查",
            use_after_free: "⚠️ 手动",
            data_race: "⚠️ 手动",
            null_deref: "⚠️ 可选类型",
        },
        SafetyComparison {
            language: "C",
            buffer_overflow: "✅ 可能",
            use_after_free: "✅ 可能",
            data_race: "✅ 可能",
            null_deref: "✅ 可能",
        },
        SafetyComparison {
            language: "Python",
            buffer_overflow: "❌ 不可能",
            use_after_free: "❌ 不可能",
            data_race: "⚠️ GIL限制",
            null_deref: "✅ 可能",
        },
    ]
}

/// The heading that precedes the table (its first line is empty).
pub open spec fn table_heading() -> Seq<Seq<char>> {
    seq![
        "\n=== 内存安全对比表 ==="@,
        "| 语言     | 缓冲区溢出    | 释放后使用   | 数据竞争     | 空解引用   |"@,
        "|----------|--------------|--------------|--------------|------------|"@,
    ]
}

/// The lines of the comparison table: the heading, then one row per language.
pub fn comparison_table_lines() -> (res: Vec<String>)
    ensures
        res@.len() == table_heading().len() + comparison_table().len(),
        forall|i: int| 0 <= i < table_heading().len() ==> #[trigger] res@[i]@ == table_heading()[i],
        forall|i: int|
            0 <= i < comparison_table().len() ==> #[trigger] res@[table_heading().len() + i]@
                == row_text(comparison_table()[i]),
{
    let mut lines: Vec<String> = Vec::new();
    lines.push(String::from_str("\n=== 内存安全对比表 ==="));
    lines.push(String::from_str("| 语言     | 缓冲区溢出    | 释放后使用   | 数据竞争     | 空解引用   |"));
    lines.push(String::from_str("|----------|--------------|--------------|--------------|------------|"));
    let rows = comparisons();
    let mut i: usize = 0;
    while i < rows.len()
        invariant
            rows@ == comparison_table(),
            0 <= i <= rows@.len(),
            lines@.len() == 3 + i,
            forall|k: int| 0 <= k < 3 ==> #[trigger] lines@[k]@ == table_heading()[k],
            forall|k: int| 0 <= k < i ==> #[trigger] lines@[3 + k]@ == row_text(comparison_table()[k]),
        decreases rows@.len() - i,
    {
        let line = rows[i].row();
        lines.push(line);
        i += 1;
    }
    lines
}


/// Padding keeps the text in front and fills with spaces up to the width: the
/// result is as long as the width or the text, whichever is longer.
pub proof fn lemma_pad_right(s: Seq<char>, width: nat)
    ensures
        pad_right(s, width).len() == if s.len() < width { width } else { s.len() },
        pad_right(s, width).subrange(0, s.len() as int) == s,
        forall|k: int| s.len() <= k < pad_right(s, width).len() ==> #[trigger] pad_right(s, width)[k] == ' ',
{
    assert(pad_right(s, width).subrange(0, s.len() as int) =~= s);
}

/// A row whose cells fit their columns is 74 characters wide, so the columns
/// of all such rows line up.
pub proof fn lemma_row_width(c: SafetyComparison)
    requires
        c.language@.len() <= 8,
        c.buffer_overflow@.len() <= 14,
        c.use_after_free@.len() <= 14,
        c.data_race@.len() <= 12,
        c.null_deref@.len() <= 10,
    ensures
        row_text(c).len() == 74,
{
    reveal_strlit("| ");
    reveal_strlit(" | ");
    reveal_strlit(" |");
    lemma_pad_right(c.language@, 8);
    lemma_pad_right(c.buffer_overflow@, 14);
    lemma_pad_right(c.use_after_free@, 14);
    lemma_pad_right(c.data_race@, 12);
    lemma_pad_right(c.null_deref@, 10);
}

/// Whether `c` is the row of language `language` with the four verdicts given.
pub open spec fn row_reads(
    c: SafetyComparison,
    language: Seq<char>,
    buffer_overflow: Seq<char>,
    use_after_free: Seq<char>,
    data_race: Seq<char>,
    null_deref: Seq<char>,
) -> bool {
    c.language@ == language ==> {
        &&& c.buffer_overflow@ == buffer_overflow
        &&& c.use_after_free@ == use_after_free
        &&& c.data_race@ == data_race
        &&& c.null_deref@ == null_deref
    }
}

/// The comparison covers Rust, Zig, C and Python, in that order, each once;
/// and whichever row names a language gives that language's verdicts: in Rust
/// buffer overflow and use after free cannot happen and data races are stopped
/// by the compiler, with null handled by `Option`; in Zig each is a matter of
/// optional checks or care by hand; in C every one is possible; in Python only
/// null dereference is, with data races limited by the GIL.
pub proof fn lemma_comparison_rows(i: int)
    requires
        0 <= i < comparison_table().len(),
    ensures
        comparison_table().len() == 4,
        comparison_table()[0].language@ == "Rust"@,
        comparison_table()[1].language@ == "Zig"@,
        comparison_table()[2].language@ == "C"@,
        comparison_table()[3].language@ == "Python"@,
        row_reads(comparison_table()[i], "Rust"@, "❌ 不可能"@, "❌ 不可能"@, "❌ 编译阻止"@, "⚠️ Option"@),
        row_reads(comparison_table()[i], "Zig"@, "⚠️ 可选检查"@, "⚠️ 手动"@, "⚠️ 手动"@, "⚠️ 可选类型"@),
        row_reads(comparison_table()[i], "C"@, "✅ 可能"@, "✅ 可能"@, "✅ 可能"@, "✅ 可能"@),
        row_reads(comparison_table()[i], "Python"@, "❌ 不可能"@, "❌ 不可能"@, "⚠️ GIL限制"@, "✅ 可能"@),
{
    reveal_strlit("Rust");
    reveal_strlit("Zig");
    reveal_strlit("C");
    reveal_strlit("Python");
    let t = comparison_table();
    assert("Rust"@.len() == 4 && "Zig"@.len() == 3 && "C"@.len() == 1 && "Python"@.len() == 6);
    if i == 0 {
        assert(t[0].language@ == "Rust"@);
    } else if i == 1 {
        assert(t[1].language@ == "Zig"@);
    } else if i == 2 {
        assert(t[2].language@ == "C"@);
    } else {
        assert(t[3].language@ == "Python"@);
    }
}

} // verus!
