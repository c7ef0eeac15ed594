use vstd::prelude::*;

verus! {

/// The kind of record stored in an account; the first byte of its encoding.
#[derive(Debug, Clone, Copy, PartialEq, Eq, Structural)]
pub enum AccountType {
    Uninitialized,
    PackSet,
    PackCard,
    PackVoucher,
    ProvingProcess,
    PackConfig,
}

/// The tag byte that stands for each kind in an encoded record.
pub open spec fn account_type_tag(t: AccountType) -> u8 {
    match t {
        AccountType::Uninitialized => 0,
        AccountType::PackSet => 1,
        AccountType::PackCard => 2,
        AccountType::PackVoucher => 3,
        AccountType::ProvingProcess => 4,
        AccountType::PackConfig => 5,
    }
}

impl AccountType {
    /// The tag byte of this kind.
    pub fn to_tag(&self) -> (r: u8)
        ensures
            r == account_type_tag(*self),
    {
        match self {
            AccountType::Uninitialized => 0,
            AccountType::PackSet => 1,
            AccountType::PackCard => 2,
            AccountType::PackVoucher => 3,
            AccountType::ProvingProcess => 4,
            AccountType::PackConfig => 5,
        }
    }

    /// The kind that a tag byte stands for, if any.
    pub fn from_tag(tag: u8) -> (r: Option<AccountType>)
        ensures
            tag <= 5 <==> r.is_some(),
            r matches Some(t) ==> account_type_tag(t) == tag,
    {
        match tag {
            0 => Some(AccountType::Uninitialized),
            1 => Some(AccountType::PackSet),
            2 => Some(AccountType::PackCard),
            3 => Some(AccountType::PackVoucher),
            4 => Some(AccountType::ProvingProcess),
            5 => Some(AccountType::PackConfig),
            _ => None,
        }
    }
}

} // verus!
