//! The choices the installer offers: schema edition, auxiliary-code package,
//! pinyin layout and auxiliary-code mode.

use vstd::prelude::*;
use crate::text::{chars_equal, chars_of};

verus! {

broadcast use vstd::string::group_string_axioms;

/// An auxiliary-code package of the Pro edition.
#[derive(Clone, Copy, Debug, PartialEq, Eq, Structural)]
pub enum AuxCode {
    Zrm,
    Flypy,
    Moqi,
    Hanxin,
    Wubi,
    Tiger,
    Shouyou,
    Shyplus,
    Wx,
}

/// An edition of the schema; the Pro edition carries its auxiliary-code package,
/// `None` while it is not chosen yet.
#[derive(Clone, Copy, Debug, PartialEq, Eq, Structural)]
pub enum Schema {
    Base,
    Pro(Option<AuxCode>),
}

/// A pinyin layout.
#[derive(Clone, Copy, Debug, PartialEq, Eq, Structural)]
pub enum Pinyin {
    Full,
    Zrm,
    Znabc,
    Flypy,
    Mspy,
    Sogou,
    Ziguang,
    Gbpy,
    Pyjj,
    Lxsq,
    Ltsp,
    Dnsp,
    Sdpy,
    Zrlong,
    Hxlong,
}

/// How the auxiliary code is entered.
#[derive(Clone, Copy, Debug, PartialEq, Eq, Structural)]
pub enum AuxMode {
    Direct,
    Indirect,
}

impl Schema {
    /// The short code of the edition, which names its group of algebra files.
    pub open spec fn spec_code(self) -> Seq<char> {
        match self {
            Schema::Base => "base"@,
            Schema::Pro(_) => "pro"@,
        }
    }

    /// The schema id of the edition, which names its files.
    pub open spec fn spec_schema_id(self) -> Seq<char> {
        match self {
            Schema::Base => "wanxiang"@,
            Schema::Pro(_) => "wanxiang_pro"@,
        }
    }

    /// The name shown to the user.
    pub open spec fn spec_name(self) -> Seq<char> {
        match self {
            Schema::Base => "基础版 (Base)"@,
            Schema::Pro(_) => "专业版 (Pro)"@,
        }
    }

    pub fn code(self) -> (r: &'static str)
        ensures
            r@ == self.spec_code(),
    {
        match self {
            Schema::Base => "base",
            Schema::Pro(_) => "pro",
        }
    }

    pub fn schema_id(self) -> (r: &'static str)
        ensures
            r@ == self.spec_schema_id(),
    {
        match self {
            Schema::Base => "wanxiang",
            Schema::Pro(_) => "wanxiang_pro",
        }
    }

    pub fn name(self) -> (r: &'static str)
        ensures
            r@ == self.spec_name(),
    {
        match self {
            Schema::Base => "基础版 (Base)",
            Schema::Pro(_) => "专业版 (Pro)",
        }
    }

    /// The editions in the order they are offered; the Pro edition without a
    /// package yet.
    pub fn all() -> (r: Vec<Schema>)
        ensures
            r@ == seq![Schema::Base, Schema::Pro(None)],
    {
        vec![Schema::Base, Schema::Pro(None)]
    }
}

impl AuxCode {
    pub open spec fn spec_code(self) -> Seq<char> {
        match self {
            AuxCode::Zrm => "zrm"@,
            AuxCode::Flypy => "flypy"@,
            AuxCode::Moqi => "moqi"@,
            AuxCode::Hanxin => "hanxin"@,
            AuxCode::Wubi => "wubi"@,
            AuxCode::Tiger => "tiger"@,
            AuxCode::Shouyou => "shouyou"@,
            AuxCode::Shyplus => "shyplus"@,
            AuxCode::Wx => "wx"@,
        }
    }

    pub open spec fn spec_name(self) -> Seq<char> {
        match self {
            AuxCode::Zrm => "自然码"@,
            AuxCode::Flypy => "小鹤"@,
            AuxCode::Moqi => "墨奇"@,
            AuxCode::Hanxin => "汉心"@,
            AuxCode::Wubi => "五笔前二"@,
            AuxCode::Tiger => "虎码首末"@,
            AuxCode::Shouyou => "首右"@,
            AuxCode::Shyplus => "首右+"@,
            AuxCode::Wx => "万象"@,
        }
    }

    /// The packages in the order they are offered.
    pub open spec fn spec_all() -> Seq<AuxCode> {
        seq![
            AuxCode::Zrm,
            AuxCode::Flypy,
            AuxCode::Moqi,
            AuxCode::Hanxin,
            AuxCode::Wubi,
            AuxCode::Tiger,
            AuxCode::Shouyou,
            AuxCode::Shyplus,
            AuxCode::Wx,
        ]
    }

    /// The code of the package, which names its release archive and appears
    /// in `lua/meta.lua`.
    pub fn code(self) -> (r: &'static str)
        ensures
            r@ == self.spec_code(),
    {
        match self {
            AuxCode::Zrm => "zrm",
            AuxCode::Flypy => "flypy",
            AuxCode::Moqi => "moqi",
            AuxCode::Hanxin => "hanxin",
            AuxCode::Wubi => "wubi",
            AuxCode::Tiger => "tiger",
            AuxCode::Shouyou => "shouyou",
            AuxCode::Shyplus => "shyplus",
            AuxCode::Wx => "wx",
        }
    }

    pub fn name(self) -> (r: &'static str)
        ensures
            r@ == self.spec_name(),
    {
        match self {
            AuxCode::Zrm => "自然码",
            AuxCode::Flypy => "小鹤",
            AuxCode::Moqi => "墨奇",
            AuxCode::Hanxin => "汉心",
            AuxCode::Wubi => "五笔前二",
            AuxCode::Tiger => "虎码首末",
            AuxCode::Shouyou => "首右",
            AuxCode::Shyplus => "首右+",
            AuxCode::Wx => "万象",
        }
    }

    pub fn all() -> (r: Vec<AuxCode>)
        ensures
            r@ == Self::spec_all(),
    {
        vec![
            AuxCode::Zrm,
            AuxCode::Flypy,
            AuxCode::Moqi,
            AuxCode::Hanxin,
            AuxCode::Wubi,
            AuxCode::Tiger,
            AuxCode::Shouyou,
            AuxCode::Shyplus,
            AuxCode::Wx,
        ]
    }

    /// The package whose code is `code`.
    pub fn from_code(code: &[char]) -> (r: Option<AuxCode>)
        ensures
            r matches Some(a) ==> a.spec_code() == code@,
            r is None ==> forall|a: AuxCode| a.spec_code() != code@,
    {
        let all = AuxCode::all();
        let mut k: usize = 0;
        while k < all.len()
            invariant
                all@ == Self::spec_all(),
                k <= all@.len(),
                forall|m: int| 0 <= m < k ==> (#[trigger] all@[m]).spec_code() != code@,
            decreases all.len() - k,
        {
            let a = all[k];
            if chars_equal(&chars_of(a.code()), code) {
                return Some(a);
            }
            k = k + 1;
        }
        proof {
            assert forall|a: AuxCode| a.spec_code() != code@ by {
                lemma_aux_code_listed(a);
                let m = choose|m: int| 0 <= m < all@.len() && all@[m] == a;
                assert(all@[m].spec_code() != code@);
            }
        }
        None
    }
}

/// Every package is offered.
pub proof fn lemma_aux_code_listed(a: AuxCode)
    ensures
        AuxCode::spec_all().contains(a),
{
    let all = AuxCode::spec_all();
    match a {
        AuxCode::Zrm => assert(all[0] == a),
        AuxCode::Flypy => assert(all[1] == a),
        AuxCode::Moqi => assert(all[2] == a),
        AuxCode::Hanxin => assert(all[3] == a),
        AuxCode::Wubi => assert(all[4] == a),
        AuxCode::Tiger => assert(all[5] == a),
        AuxCode::Shouyou => assert(all[6] == a),
        AuxCode::Shyplus => assert(all[7] == a),
        AuxCode::Wx => assert(all[8] == a),
    }
}

/// Two packages with the same code are the same package: the code that
/// `lua/meta.lua` records identifies the package.
pub proof fn lemma_aux_code_injective(a: AuxCode, b: AuxCode)
    requires
        a.spec_code() == b.spec_code(),
    ensures
        a == b,
{
    reveal_strlit("zrm");
    reveal_strlit("flypy");
    reveal_strlit("moqi");
    reveal_strlit("hanxin");
    reveal_strlit("wubi");
    reveal_strlit("tiger");
    reveal_strlit("shouyou");
    reveal_strlit("shyplus");
    reveal_strlit("wx");
    let (x, y) = (a.spec_code(), b.spec_code());
    assert(x.len() == y.len() && x[0] == y[0] && x[1] == y[1] && x[2] == y[2]);
    match a {
        AuxCode::Zrm => {},
        AuxCode::Flypy => {},
        AuxCode::Moqi => {},
        AuxCode::Hanxin => {},
        AuxCode::Wubi => {},
        AuxCode::Tiger => {},
        AuxCode::Shouyou => {},
        AuxCode::Shyplus => {},
        AuxCode::Wx => {},
    }
}


impl Pinyin {
    /// The name shown to the user, which is also the name of the algebra file
    /// that selects it.
    pub open spec fn spec_name(self) -> Seq<char> {
        match self {
            Pinyin::Full => "全拼"@,
            Pinyin::Zrm => "自然码"@,
            Pinyin::Znabc => "智能ABC"@,
            Pinyin::Flypy => "小鹤双拼"@,
            Pinyin::Mspy => "微软双拼"@,
            Pinyin::Sogou => "搜狗双拼"@,
            Pinyin::Ziguang => "紫光双拼"@,
            Pinyin::Gbpy => "国标双拼"@,
            Pinyin::Pyjj => "拼音加加"@,
            Pinyin::Lxsq => "乱序17"@,
            Pinyin::Ltsp => "蓝天双拼"@,
            Pinyin::Dnsp => "大牛双拼"@,
            Pinyin::Sdpy => "首道双拼"@,
            Pinyin::Zrlong => "自然龙"@,
            Pinyin::Hxlong => "汉心龙"@,
        }
    }

    /// The layouts in the order they are offered.
    pub open spec fn spec_all() -> Seq<Pinyin> {
        seq![
            Pinyin::Full,
            Pinyin::Zrm,
            Pinyin::Znabc,
            Pinyin::Flypy,
            Pinyin::Mspy,
            Pinyin::Sogou,
            Pinyin::Ziguang,
            Pinyin::Gbpy,
            Pinyin::Pyjj,
            Pinyin::Lxsq,
            Pinyin::Ltsp,
            Pinyin::Dnsp,
            Pinyin::Sdpy,
            Pinyin::Zrlong,
            Pinyin::Hxlong,
        ]
    }

    pub fn name(self) -> (r: &'static str)
        ensures
            r@ == self.spec_name(),
    {
        match self {
            Pinyin::Full => "全拼",
            Pinyin::Zrm => "自然码",
            Pinyin::Znabc => "智能ABC",
            Pinyin::Flypy => "小鹤双拼",
            Pinyin::Mspy => "微软双拼",
            Pinyin::Sogou => "搜狗双拼",
            Pinyin::Ziguang => "紫光双拼",
            Pinyin::Gbpy => "国标双拼",
            Pinyin::Pyjj => "拼音加加",
            Pinyin::Lxsq => "乱序17",
            Pinyin::Ltsp => "蓝天双拼",
            Pinyin::Dnsp => "大牛双拼",
            Pinyin::Sdpy => "首道双拼",
            Pinyin::Zrlong => "自然龙",
            Pinyin::Hxlong => "汉心龙",
        }
    }

    pub fn all() -> (r: Vec<Pinyin>)
        ensures
            r@ == Self::spec_all(),
    {
        vec![
            Pinyin::Full,
            Pinyin::Zrm,
            Pinyin::Znabc,
            Pinyin::Flypy,
            Pinyin::Mspy,
            Pinyin::Sogou,
            Pinyin::Ziguang,
            Pinyin::Gbpy,
            Pinyin::Pyjj,
            Pinyin::Lxsq,
            Pinyin::Ltsp,
            Pinyin::Dnsp,
            Pinyin::Sdpy,
            Pinyin::Zrlong,
            Pinyin::Hxlong,
        ]
    }

    /// The value whose name is `name`.
    pub fn from_name(name: &[char]) -> (r: Option<Pinyin>)
        ensures
            r matches Some(x) ==> x.spec_name() == name@,
            r is None ==> forall|x: Pinyin| x.spec_name() != name@,
    {
        let all = Pinyin::all();
        let mut k: usize = 0;
        while k < all.len()
            invariant
                all@ == Self::spec_all(),
                k <= all@.len(),
                forall|m: int| 0 <= m < k ==> (#[trigger] all@[m]).spec_name() != name@,
            decreases all.len() - k,
        {
            let x = all[k];
            if chars_equal(&chars_of(x.name()), name) {
                return Some(x);
            }
            k = k + 1;
        }
        proof {
            assert forall|x: Pinyin| x.spec_name() != name@ by {
                lemma_pinyin_listed(x);
                let m = choose|m: int| 0 <= m < all@.len() && all@[m] == x;
                assert(all@[m].spec_name() != name@);
            }
        }
        None
    }
}

/// Every value is offered.
pub proof fn lemma_pinyin_listed(x: Pinyin)
    ensures
        Pinyin::spec_all().contains(x),
{
    let all = Pinyin::spec_all();
    match x {
        Pinyin::Full => assert(all[0] == x),
        Pinyin::Zrm => assert(all[1] == x),
        Pinyin::Znabc => assert(all[2] == x),
        Pinyin::Flypy => assert(all[3] == x),
        Pinyin::Mspy => assert(all[4] == x),
        Pinyin::Sogou => assert(all[5] == x),
        Pinyin::Ziguang => assert(all[6] == x),
        Pinyin::Gbpy => assert(all[7] == x),
        Pinyin::Pyjj => assert(all[8] == x),
        Pinyin::Lxsq => assert(all[9] == x),
        Pinyin::Ltsp => assert(all[10] == x),
        Pinyin::Dnsp => assert(all[11] == x),
        Pinyin::Sdpy => assert(all[12] == x),
        Pinyin::Zrlong => assert(all[13] == x),
        Pinyin::Hxlong => assert(all[14] == x),
    }
}

/// Two values with the same name are the same value: the name in an algebra
/// reference identifies the choice.
pub proof fn lemma_pinyin_name_injective(a: Pinyin, b: Pinyin)
    requires
        a.spec_name() == b.spec_name(),
    ensures
        a == b,
{
    reveal_strlit("全拼");
    reveal_strlit("自然码");
    reveal_strlit("智能ABC");
    reveal_strlit("小鹤双拼");
    reveal_strlit("微软双拼");
    reveal_strlit("搜狗双拼");
    reveal_strlit("紫光双拼");
    reveal_strlit("国标双拼");
    reveal_strlit("拼音加加");
    reveal_strlit("乱序17");
    reveal_strlit("蓝天双拼");
    reveal_strlit("大牛双拼");
    reveal_strlit("首道双拼");
    reveal_strlit("自然龙");
    reveal_strlit("汉心龙");
    let (x, y) = (a.spec_name(), b.spec_name());
    assert(x.len() == y.len() && x[0] == y[0] && x[1] == y[1] && x[2] == y[2]);
    match a {
        Pinyin::Full => {},
        Pinyin::Zrm => {},
        Pinyin::Znabc => {},
        Pinyin::Flypy => {},
        Pinyin::Mspy => {},
        Pinyin::Sogou => {},
        Pinyin::Ziguang => {},
        Pinyin::Gbpy => {},
        Pinyin::Pyjj => {},
        Pinyin::Lxsq => {},
        Pinyin::Ltsp => {},
        Pinyin::Dnsp => {},
        Pinyin::Sdpy => {},
        Pinyin::Zrlong => {},
        Pinyin::Hxlong => {},
    }
}

impl AuxMode {
    /// The name shown to the user, which is also the name of the algebra file
    /// that selects it.
    pub open spec fn spec_name(self) -> Seq<char> {
        match self {
            AuxMode::Direct => "直接辅助"@,
            AuxMode::Indirect => "间接辅助"@,
        }
    }

    /// The modes in the order they are offered.
    pub open spec fn spec_all() -> Seq<AuxMode> {
        seq![
            AuxMode::Direct,
            AuxMode::Indirect,
        ]
    }

    pub fn name(self) -> (r: &'static str)
        ensures
            r@ == self.spec_name(),
    {
        match self {
            AuxMode::Direct => "直接辅助",
            AuxMode::Indirect => "间接辅助",
        }
    }

    pub fn all() -> (r: Vec<AuxMode>)
        ensures
            r@ == Self::spec_all(),
    {
        vec![
            AuxMode::Direct,
            AuxMode::Indirect,
        ]
    }

    /// The value whose name is `name`.
    pub fn from_name(name: &[char]) -> (r: Option<AuxMode>)
        ensures
            r matches Some(x) ==> x.spec_name() == name@,
            r is None ==> forall|x: AuxMode| x.spec_name() != name@,
    {
        let all = AuxMode::all();
        let mut k: usize = 0;
        while k < all.len()
            invariant
                all@ == Self::spec_all(),
                k <= all@.len(),
                forall|m: int| 0 <= m < k ==> (#[trigger] all@[m]).spec_name() != name@,
            decreases all.len() - k,
        {
            let x = all[k];
            if chars_equal(&chars_of(x.name()), name) {
                return Some(x);
            }
            k = k + 1;
        }
        proof {
            assert forall|x: AuxMode| x.spec_name() != name@ by {
                lemma_auxmode_listed(x);
                let m = choose|m: int| 0 <= m < all@.len() && all@[m] == x;
                assert(all@[m].spec_name() != name@);
            }
        }
        None
    }
}

/// Every value is offered.
pub proof fn lemma_auxmode_listed(x: AuxMode)
    ensures
        AuxMode::spec_all().contains(x),
{
    let all = AuxMode::spec_all();
    match x {
        AuxMode::Direct => assert(all[0] == x),
        AuxMode::Indirect => assert(all[1] == x),
    }
}

/// Two values with the same name are the same value: the name in an algebra
/// reference identifies the choice.
pub proof fn lemma_auxmode_name_injective(a: AuxMode, b: AuxMode)
    requires
        a.spec_name() == b.spec_name(),
    ensures
        a == b,
{
    reveal_strlit("直接辅助");
    reveal_strlit("间接辅助");
    let (x, y) = (a.spec_name(), b.spec_name());
    assert(x.len() == y.len() && x[0] == y[0] && x[1] == y[1] && x[2] == y[2]);
    match a {
        AuxMode::Direct => {},
        AuxMode::Indirect => {},
    }
}


/// The layouts are offered in this order, and each is selected by the algebra
/// file of its name: the name is the file name under the edition's group.
pub proof fn lemma_pinyin_table()
    ensures
        Pinyin::spec_all() == seq![
            Pinyin::Full,
            Pinyin::Zrm,
            Pinyin::Znabc,
            Pinyin::Flypy,
            Pinyin::Mspy,
            Pinyin::Sogou,
            Pinyin::Ziguang,
            Pinyin::Gbpy,
            Pinyin::Pyjj,
            Pinyin::Lxsq,
            Pinyin::Ltsp,
            Pinyin::Dnsp,
            Pinyin::Sdpy,
            Pinyin::Zrlong,
            Pinyin::Hxlong,
        ],
        Pinyin::Full.spec_name() == "全拼"@,
        Pinyin::Zrm.spec_name() == "自然码"@,
        Pinyin::Znabc.spec_name() == "智能ABC"@,
        Pinyin::Flypy.spec_name() == "小鹤双拼"@,
        Pinyin::Mspy.spec_name() == "微软双拼"@,
        Pinyin::Sogou.spec_name() == "搜狗双拼"@,
        Pinyin::Ziguang.spec_name() == "紫光双拼"@,
        Pinyin::Gbpy.spec_name() == "国标双拼"@,
        Pinyin::Pyjj.spec_name() == "拼音加加"@,
        Pinyin::Lxsq.spec_name() == "乱序17"@,
        Pinyin::Ltsp.spec_name() == "蓝天双拼"@,
        Pinyin::Dnsp.spec_name() == "大牛双拼"@,
        Pinyin::Sdpy.spec_name() == "首道双拼"@,
        Pinyin::Zrlong.spec_name() == "自然龙"@,
        Pinyin::Hxlong.spec_name() == "汉心龙"@,
{
}

/// The modes are offered direct first, and each is selected by the algebra
/// file of its name.
pub proof fn lemma_auxmode_table()
    ensures
        AuxMode::spec_all() == seq![AuxMode::Direct, AuxMode::Indirect],
        AuxMode::Direct.spec_name() == "直接辅助"@,
        AuxMode::Indirect.spec_name() == "间接辅助"@,
{
}

/// The packages are offered in this order; each has the code that names its
/// release archive and appears in `lua/meta.lua`, and the name shown.
pub proof fn lemma_aux_code_table()
    ensures
        AuxCode::spec_all() == seq![
            AuxCode::Zrm,
            AuxCode::Flypy,
            AuxCode::Moqi,
            AuxCode::Hanxin,
            AuxCode::Wubi,
            AuxCode::Tiger,
            AuxCode::Shouyou,
            AuxCode::Shyplus,
            AuxCode::Wx,
        ],
        AuxCode::Zrm.spec_code() == "zrm"@ && AuxCode::Zrm.spec_name() == "自然码"@,
        AuxCode::Flypy.spec_code() == "flypy"@ && AuxCode::Flypy.spec_name() == "小鹤"@,
        AuxCode::Moqi.spec_code() == "moqi"@ && AuxCode::Moqi.spec_name() == "墨奇"@,
        AuxCode::Hanxin.spec_code() == "hanxin"@ && AuxCode::Hanxin.spec_name() == "汉心"@,
        AuxCode::Wubi.spec_code() == "wubi"@ && AuxCode::Wubi.spec_name() == "五笔前二"@,
        AuxCode::Tiger.spec_code() == "tiger"@ && AuxCode::Tiger.spec_name() == "虎码首末"@,
        AuxCode::Shouyou.spec_code() == "shouyou"@ && AuxCode::Shouyou.spec_name() == "首右"@,
        AuxCode::Shyplus.spec_code() == "shyplus"@ && AuxCode::Shyplus.spec_name() == "首右+"@,
        AuxCode::Wx.spec_code() == "wx"@ && AuxCode::Wx.spec_name() == "万象"@,
{
}

/// Each edition's code names its group of algebra files and its schema id
/// names its files; the Pro edition's do not depend on the package.
pub proof fn lemma_schema_table(aux: Option<AuxCode>)
    ensures
        Schema::Base.spec_code() == "base"@,
        Schema::Base.spec_schema_id() == "wanxiang"@,
        Schema::Pro(aux).spec_code() == "pro"@,
        Schema::Pro(aux).spec_schema_id() == "wanxiang_pro"@,
{
}

} // verus!
