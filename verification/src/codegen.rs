use vstd::prelude::*;
use vstd::string::StringExecFns;

verus! {

broadcast use vstd::seq::group_seq_axioms;

/// What the generator needs to know of one member of a candidate enum:
/// its name, whether it carries data, and whether it declares an explicit
/// discriminant value.
pub struct Member {
    pub name: String,
    pub has_data: bool,
    pub has_discriminant: bool,
}

/// Why a candidate enum is not eligible for the ordinal mapping.
#[derive(Clone, Copy, PartialEq, Eq, Structural, Debug)]
pub enum EligibilityError {
    /// More than 32 members: the mask has no bit for the 33rd.
    TooManyMembers,
    /// A member carries data, so ordinals cannot be purely positional.
    DataMember,
    /// A member declares its own discriminant; ordinals are always assigned
    /// by declaration position.
    ExplicitDiscriminant,
}

impl EligibilityError {
    /// The build-time message for this rejection.
    pub open spec fn spec_message(self) -> Seq<char> {
        match self {
            EligibilityError::TooManyMembers => "#[derive(CLike)] supports at most 32 variants"@,
            EligibilityError::DataMember => "#[derive(CLike)] requires C style style enum"@,
            EligibilityError::ExplicitDiscriminant => "#[derive(CLike)] doesn't currently support discriminants"@,
        }
    }

    /// The message text itself.
    pub fn message(&self) -> (r: &'static str)
        ensures
            r@ == self.spec_message(),
    {
        match self {
            EligibilityError::TooManyMembers => "#[derive(CLike)] supports at most 32 variants",
            EligibilityError::DataMember => "#[derive(CLike)] requires C style style enum",
            EligibilityError::ExplicitDiscriminant => "#[derive(CLike)] doesn't currently support discriminants",
        }
    }
}

/// The first `n` members neither carry data nor declare a discriminant.
pub open spec fn clean_prefix(ms: Seq<Member>, n: int) -> bool {
    forall|j: int| 0 <= j < n ==> !(#[trigger] ms[j]).has_data && !ms[j].has_discriminant
}

/// An eligible enum: at most 32 members, all of them plain.
pub open spec fn eligible(ms: Seq<Member>) -> bool {
    ms.len() <= 32 && clean_prefix(ms, ms.len() as int)
}

/// Validates a candidate enum's members, scanning in declaration order.
/// The 33rd member is refused before its own shape is even looked at, and
/// within one member, carried data is refused before a discriminant.
pub fn check_members(members: &Vec<Member>) -> (r: Result<(), EligibilityError>)
    ensures
        (r is Ok) == eligible(members@),
        (r == Result::<(), EligibilityError>::Err(EligibilityError::TooManyMembers)) == (
        members@.len() > 32 && clean_prefix(members@, 32)),
        (r == Result::<(), EligibilityError>::Err(EligibilityError::DataMember)) == (exists|k: int|
            0 <= k < members@.len() && k < 32 && (#[trigger] members@[k]).has_data && clean_prefix(
                members@,
                k,
            )),
        (r == Result::<(), EligibilityError>::Err(EligibilityError::ExplicitDiscriminant)) == (
        exists|k: int|
            0 <= k < members@.len() && k < 32 && (#[trigger] members@[k]).has_discriminant
                && !members@[k].has_data && clean_prefix(members@, k)),
{
    let n = members.len();
    let mut i: usize = 0;
    while i < n
        invariant
            n == members@.len(),
            i <= n,
            i <= 32,
            clean_prefix(members@, i as int),
        decreases n - i,
    {
        if i == 32 {
            return Err(EligibilityError::TooManyMembers);
        }
        let m = &members[i];
        if m.has_data {
            proof {
                assert(0 <= i < members@.len() && (i as int) < 32 && members@[i as int].has_data
                    && clean_prefix(members@, i as int));
            }
            return Err(EligibilityError::DataMember);
        }
        if m.has_discriminant {
            proof {
                assert(0 <= i < members@.len() && (i as int) < 32 && members@[i as int].has_discriminant
                    && !members@[i as int].has_data && clean_prefix(members@, i as int));
            }
            return Err(EligibilityError::ExplicitDiscriminant);
        }
        i = i + 1;
    }
    Ok(())
}

/// The digit character for a value below ten.
pub open spec fn digit_char(d: u32) -> char {
    if d == 0 {
        '0'
    } else if d == 1 {
        '1'
    } else if d == 2 {
        '2'
    } else if d == 3 {
        '3'
    } else if d == 4 {
        '4'
    } else if d == 5 {
        '5'
    } else if d == 6 {
        '6'
    } else if d == 7 {
        '7'
    } else if d == 8 {
        '8'
    } else {
        '9'
    }
}

/// The decimal rendering of a value below one hundred.
pub open spec fn dec_seq(n: u32) -> Seq<char>
    recommends
        n < 100,
{
    if n < 10 {
        seq![digit_char(n)]
    } else {
        seq![digit_char(n / 10), digit_char(n % 10)]
    }
}

fn digit_str(d: u32) -> (r: &'static str)
    requires
        d < 10,
    ensures
        r@ == seq![digit_char(d)],
{
    if d == 0 {
        proof {
            reveal_strlit("0");
            assert("0"@ =~= seq![digit_char(0u32)]);
        }
        "0"
    } else if d == 1 {
        proof {
            reveal_strlit("1");
            assert("1"@ =~= seq![digit_char(1u32)]);
        }
        "1"
    } else if d == 2 {
        proof {
            reveal_strlit("2");
            assert("2"@ =~= seq![digit_char(2u32)]);
        }
        "2"
    } else if d == 3 {
        proof {
            reveal_strlit("3");
            assert("3"@ =~= seq![digit_char(3u32)]);
        }
        "3"
    } else if d == 4 {
        proof {
            reveal_strlit("4");
            assert("4"@ =~= seq![digit_char(4u32)]);
        }
        "4"
    } else if d == 5 {
        proof {
            reveal_strlit("5");
            assert("5"@ =~= seq![digit_char(5u32)]);
        }
        "5"
    } else if d == 6 {
        proof {
            reveal_strlit("6");
            assert("6"@ =~= seq![digit_char(6u32)]);
        }
        "6"
    } else if d == 7 {
        proof {
            reveal_strlit("7");
            assert("7"@ =~= seq![digit_char(7u32)]);
        }
        "7"
    } else if d == 8 {
        proof {
            reveal_strlit("8");
            assert("8"@ =~= seq![digit_char(8u32)]);
        }
        "8"
    } else {
        proof {
            reveal_strlit("9");
            assert("9"@ =~= seq![digit_char(9u32)]);
        }
        "9"
    }
}

/// Appends the decimal rendering of `n` to the string.
fn append_dec(out: &mut String, n: u32)
    requires
        n < 100,
    ensures
        final(out)@ == old(out)@ + dec_seq(n),
{
    if n >= 10 {
        out.append(digit_str(n / 10));
        out.append(digit_str(n % 10));
        proof {
            assert(out@ =~= old(out)@ + dec_seq(n));
        }
    } else {
        out.append(digit_str(n));
        proof {
            assert(out@ =~= old(out)@ + dec_seq(n));
        }
    }
}

/// One `from_u32` match arm per member, each mapping the member's position
/// to the member itself.
pub open spec fn arms_text(name: Seq<char>, ms: Seq<Member>, k: int) -> Seq<char>
    decreases ms.len() - k,
{
    if k < 0 || k >= ms.len() {
        Seq::empty()
    } else {
        "            "@ + dec_seq(k as u32) + " => "@ + name + "::"@ + ms[k].name@ + ",\n"@
            + arms_text(name, ms, k + 1)
    }
}

/// The whole generated impl of the ordinal-mapping contract for an enum
/// with the given name and members: every item the compiled trait asks of
/// an implementor. `ordinal` mirrors `to_u32`, and the two obligation
/// methods get the inert bodies that plain-Rust implementors write.
pub open spec fn mapping_text(name: Seq<char>, ms: Seq<Member>) -> Seq<char> {
    "impl ::enum_set::CLike for "@ + name + " {\n"@
        + "    fn ordinal(&self) -> u32 {\n"@ + (if ms.len() == 0 {
        "        unreachable!()\n"@
    } else {
        "        *self as u32\n"@
    }) + "    }\n"@ + "\n"@ + "    fn ordinal_in_range(&self) {}\n"@ + "\n"@
        + "    fn ordinal_injective(&self, _other: &Self) {}\n"@ + "\n"@
        + "    fn from_u32(value: u32) -> Self {\n"@ + "        match value {\n"@ + arms_text(
        name,
        ms,
        0,
    ) + "            _ => unreachable!(),\n"@ + "        }\n"@ + "    }\n"@ + "\n"@
        + "    fn to_u32(&self) -> u32 {\n"@ + (if ms.len() == 0 {
        "        unreachable!()\n"@
    } else {
        "        *self as u32\n"@
    }) + "    }\n"@ + "}\n"@
}

/// The boundary of eligibility: an enum with exactly 32 plain members is
/// accepted, and one more member of any shape makes it ineligible.
pub proof fn lemma_boundary_32_members(ms: Seq<Member>, extra: Member)
    requires
        ms.len() == 32,
        clean_prefix(ms, 32),
    ensures
        eligible(ms),
        !eligible(ms.push(extra)),
{
}

/// Validates the members of the named enum and, when they are eligible,
/// emits the impl of the ordinal-mapping contract: `to_u32` and `ordinal`
/// return the declaration position, and `from_u32` maps each position back
/// to its member by an exhaustive match.
pub fn generate(enum_name: &str, members: &Vec<Member>) -> (r: Result<
    String,
    EligibilityError,
>)
    ensures
        (r is Ok) == eligible(members@),
        r matches Ok(text) ==> text@ == mapping_text(enum_name@, members@),
        (r == Result::<String, EligibilityError>::Err(EligibilityError::TooManyMembers)) == (
        members@.len() > 32 && clean_prefix(members@, 32)),
        (r == Result::<String, EligibilityError>::Err(EligibilityError::DataMember)) == (exists|
            k: int,
        |
            0 <= k < members@.len() && k < 32 && (#[trigger] members@[k]).has_data && clean_prefix(
                members@,
                k,
            )),
        (r == Result::<String, EligibilityError>::Err(EligibilityError::ExplicitDiscriminant)) == (
        exists|k: int|
            0 <= k < members@.len() && k < 32 && (#[trigger] members@[k]).has_discriminant
                && !members@[k].has_data && clean_prefix(members@, k)),
{
    match check_members(members) {
        Err(e) => {
            return Err(e);
        },
        Ok(()) => {
        },
    }
    let ghost name = enum_name@;
    let ghost ms = members@;
    let mut out = String::new();
    out.append("impl ::enum_set::CLike for ");
    out.append(enum_name);
    out.append(" {\n");
    out.append("    fn ordinal(&self) -> u32 {\n");
    if members.len() == 0 {
        out.append("        unreachable!()\n");
    } else {
        out.append("        *self as u32\n");
    }
    out.append("    }\n");
    out.append("\n");
    out.append("    fn ordinal_in_range(&self) {}\n");
    out.append("\n");
    out.append("    fn ordinal_injective(&self, _other: &Self) {}\n");
    out.append("\n");
    out.append("    fn from_u32(value: u32) -> Self {\n");
    out.append("        match value {\n");
    let ghost header = out@;
    let n = members.len();
    let mut k: usize = 0;
    while k < n
        invariant
            n == ms.len(),
            n <= 32,
            k <= n,
            ms == members@,
            name == enum_name@,
            header + arms_text(name, ms, 0) == out@ + arms_text(name, ms, k as int),
        decreases n - k,
    {
        let ghost before = out@;
        out.append("            ");
        append_dec(&mut out, k as u32);
        out.append(" => ");
        out.append(enum_name);
        out.append("::");
        out.append(members[k].name.as_str());
        out.append(",\n");
        proof {
            let line = "            "@ + dec_seq(k as u32) + " => "@ + name + "::"@ + ms[k
                as int].name@ + ",\n"@;
            assert(out@ =~= before + line);
            assert(arms_text(name, ms, k as int) == line + arms_text(name, ms, k as int + 1));
            assert(header + arms_text(name, ms, 0) =~= out@ + arms_text(name, ms, k as int + 1));
        }
        k = k + 1;
    }
    proof {
        assert(arms_text(name, ms, n as int) == Seq::<char>::empty());
        assert(out@ =~= header + arms_text(name, ms, 0));
    }
    out.append("            _ => unreachable!(),\n");
    out.append("        }\n");
    out.append("    }\n");
    out.append("\n");
    out.append("    fn to_u32(&self) -> u32 {\n");
    if members.len() == 0 {
        out.append("        unreachable!()\n");
    } else {
        out.append("        *self as u32\n");
    }
    out.append("    }\n");
    out.append("}\n");
    proof {
        assert(out@ =~= mapping_text(name, ms));
    }
    Ok(out)
}

} // verus!
