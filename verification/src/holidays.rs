//! The public holidays of Saxony, and a calendar that adds holidays of the
//! user's own.
use crate::date::{
    Date, MAX_YEAR, day_number, lemma_month_mono, days_before_year, days_in_month, first_day_number, in_range,
    last_day_number, lemma_within_year, lemma_year_mono, valid_ymd, weekday_of, year_len,
};
use vstd::arithmetic::div_mod::lemma_fundamental_div_mod_converse;
use vstd::prelude::*;

verus! {

/// `a / b` rounded toward zero, as Rust's `/` divides integers (`b > 0`).
pub open spec fn tdiv(a: int, b: int) -> int {
    if a >= 0 {
        a / b
    } else {
        -((-a) / b)
    }
}

/// The remainder that goes with [`tdiv`]: it takes the sign of `a`, as
/// Rust's `%` does.
pub open spec fn tmod(a: int, b: int) -> int {
    a - b * tdiv(a, b)
}

/// Month and day of Easter Sunday in year `y` (the Meeus/Jones/Butcher
/// computus, in Rust's integer arithmetic, which rounds toward zero).
#[verifier::opaque]
pub open spec fn easter_md(y: int) -> (int, int) {
    let a = tmod(y, 19);
    let b = tdiv(y, 100);
    let c = tmod(y, 100);
    let d = tdiv(b, 4);
    let e = tmod(b, 4);
    let f = tdiv(b + 8, 25);
    let g = tdiv(b - f + 1, 3);
    let h = tmod(19 * a + b - d - g + 15, 30);
    let i = tdiv(c, 4);
    let k = tmod(c, 4);
    let l = tmod(32 + 2 * e + 2 * i - h - k, 7);
    let m = tdiv(a + 11 * h + 22 * l, 451);
    (tdiv(h + l - 7 * m + 114, 31), tmod(h + l - 7 * m + 114, 31) + 1)
}

/// Whether the computus gives a date of year `y`. It does for every year
/// from 0 on ([`lemma_easter_ok`]); before the year 0 it now and then gives
/// a day past the end of February, such as 31 February of the year -2.
pub open spec fn easter_ok(y: int) -> bool {
    valid_ymd(y, easter_md(y).0, easter_md(y).1)
}

/// The day number of Easter Sunday.
#[verifier::opaque]
pub open spec fn easter_num(y: int) -> int {
    day_number(y, easter_md(y).0, easter_md(y).1)
}

/// Easter falls between 15 March and 26 April in every year from 0 on.
pub proof fn lemma_easter_range(y: int)
    requires
        y >= 0,
    ensures
        (easter_md(y).0 == 3 && 15 <= easter_md(y).1 <= 31) || (easter_md(y).0 == 4 && 1
            <= easter_md(y).1 <= 26),
{
    reveal(easter_md);
    let a = tmod(y, 19);
    let b = tdiv(y, 100);
    let c = tmod(y, 100);
    assert(0 <= a < 19 && b >= 0 && 0 <= c < 100);
    let d = tdiv(b, 4);
    let e = tmod(b, 4);
    let f = tdiv(b + 8, 25);
    let g = tdiv(b - f + 1, 3);
    assert(0 <= e < 4);
    assert(0 <= f <= b + 1);
    assert(b - f + 1 >= 0);
    assert(b - d - g + 15 >= 0);
    let h = tmod(19 * a + b - d - g + 15, 30);
    assert(0 <= h < 30);
    let i = tdiv(c, 4);
    let k = tmod(c, 4);
    assert(0 <= i <= 24 && 0 <= k < 4);
    let l = tmod(32 + 2 * e + 2 * i - h - k, 7);
    assert(0 <= l < 7);
    let m = tdiv(a + 11 * h + 22 * l, 451);
    assert(0 <= m <= 1);
}

/// In every year from 0 on the computus gives a date.
pub proof fn lemma_easter_ok(y: int)
    requires
        0 <= y <= MAX_YEAR,
    ensures
        easter_ok(y),
{
    lemma_easter_range(y);
}

/// Whatever the year, the computus lands between 1 February and 31 May.
proof fn lemma_easter_spring(y: int)
    requires
        easter_ok(y),
    ensures
        2 <= easter_md(y).0 <= 5,
        day_number(y, 2, 1) <= easter_num(y) <= day_number(y, 5, 31),
{
    reveal(easter_md);
    reveal(easter_num);
    let a = tmod(y, 19);
    let b = tdiv(y, 100);
    let c = tmod(y, 100);
    let d = tdiv(b, 4);
    let e = tmod(b, 4);
    let f = tdiv(b + 8, 25);
    let g = tdiv(b - f + 1, 3);
    assert(-19 < a < 19 && -100 < c < 100 && -4 < e < 4);
    let h = tmod(19 * a + b - d - g + 15, 30);
    assert(-30 < h < 30);
    let i = tdiv(c, 4);
    let k = tmod(c, 4);
    assert(-25 <= i <= 25 && -4 < k < 4);
    let l = tmod(32 + 2 * e + 2 * i - h - k, 7);
    assert(-7 < l < 7);
    let m = tdiv(a + 11 * h + 22 * l, 451);
    assert(-2 <= m <= 2);
    let md = easter_md(y);
    assert(2 <= md.0 <= 5);
    if md.0 > 2 {
        lemma_month_mono(y, 2, md.0);
    }
    if md.0 < 5 {
        lemma_month_mono(y, md.0, 5);
    }
}

/// Rounding down before and after a multiple of `n`.
proof fn lemma_floor_step(y: int, n: int)
    requires
        n > 0,
    ensures
        (y - 1) / n + (if y % n == 0 {
            1int
        } else {
            0
        }) == y / n,
{
    let q = y / n;
    let r = y % n;
    vstd::arithmetic::div_mod::lemma_fundamental_div_mod(y, n);
    assert(0 <= r < n);
    if r == 0 {
        assert(y - 1 == (q - 1) * n + (n - 1)) by (nonlinear_arith)
            requires
                y == n * q + r,
                r == 0,
        ;
        lemma_fundamental_div_mod_converse(y - 1, n, q - 1, n - 1);
    } else {
        assert(y - 1 == q * n + (r - 1)) by (nonlinear_arith)
            requires
                y == n * q + r,
        ;
        lemma_fundamental_div_mod_converse(y - 1, n, q, r - 1);
    }
}

/// The days before 1 March of year `y`, less the 59 of January and
/// February: the days before the year, and its leap day.
proof fn lemma_days_to_march(y: int)
    requires
        y >= 1,
    ensures
        days_before_year(y) + (if crate::date::is_leap(y) {
            1int
        } else {
            0
        }) == 365 * (y - 1) + y / 4 - y / 100 + y / 400,
{
    reveal(days_before_year);
    lemma_floor_step(y, 4);
    lemma_floor_step(y, 100);
    lemma_floor_step(y, 400);
}

/// Easter always falls on a Sunday: in every year from the year 1 on, the
/// day the computus gives is the seventh day of its week.
pub proof fn easter_is_a_sunday(y: int)
    requires
        1 <= y <= MAX_YEAR,
    ensures
        weekday_of(easter_num(y)) == 6,
{
    lemma_easter_range(y);
    reveal(easter_md);
    reveal(easter_num);
    let a = tmod(y, 19);
    let b = tdiv(y, 100);
    let c = tmod(y, 100);
    let d = tdiv(b, 4);
    let e = tmod(b, 4);
    let f = tdiv(b + 8, 25);
    let g = tdiv(b - f + 1, 3);
    vstd::arithmetic::div_mod::lemma_fundamental_div_mod(y, 100);
    assert(b == y / 100 && y == 100 * b + c && 0 <= c < 100);
    vstd::arithmetic::div_mod::lemma_fundamental_div_mod(b, 4);
    assert(b >= 0 && d == b / 4 && b == 4 * d + e && 0 <= e < 4);
    let h = tmod(19 * a + b - d - g + 15, 30);
    let i = tdiv(c, 4);
    let k = tmod(c, 4);
    vstd::arithmetic::div_mod::lemma_fundamental_div_mod(c, 4);
    assert(i == c / 4 && c == 4 * i + k && 0 <= k < 4);
    let q = 32 + 2 * e + 2 * i - h - k;
    let l = tmod(q, 7);
    let t = tdiv(q, 7);
    assert(l == q - 7 * t);
    let m = tdiv(a + 11 * h + 22 * l, 451);
    let x = h + l - 7 * m + 114;
    let md = easter_md(y);
    assert(md.0 == tdiv(x, 31) && md.1 == tmod(x, 31) + 1);
    assert(x == 31 * md.0 + md.1 - 1);
    lemma_days_to_march(y);
    lemma_fundamental_div_mod_converse(y, 4, 25 * b + i, k);
    lemma_fundamental_div_mod_converse(y, 400, d, 100 * e + c);
    let leap: int = if crate::date::is_leap(y) {
        1
    } else {
        0
    };
    let n = easter_num(y);
    assert(crate::date::days_before_month(y, md.0) == if md.0 == 3 {
        59 + leap
    } else {
        90 + leap
    });
    assert(n == days_before_year(y) + leap + x - 34);
    let big = 20871 * d + 5218 * e + 209 * i + 52 * k - 37 - t - m;
    assert(n == 7 * big + 6);
    lemma_fundamental_div_mod_converse(n, 7, big, 6);
}

/// Easter Sunday of the Gregorian calendar, as month and day, for the years
/// 1583 to 2599, as the churches' calendars list it; no date for other years.
pub open spec fn listed_easter(y: u32) -> (int, int) {
    if y < 1600 {
        listed_easter_1583s(y)
    } else if y < 1700 {
        listed_easter_1600s(y)
    } else if y < 1800 {
        listed_easter_1700s(y)
    } else if y < 1900 {
        listed_easter_1800s(y)
    } else if y < 2000 {
        listed_easter_1900s(y)
    } else if y < 2100 {
        listed_easter_2000s(y)
    } else if y < 2200 {
        listed_easter_2100s(y)
    } else if y < 2300 {
        listed_easter_2200s(y)
    } else if y < 2400 {
        listed_easter_2300s(y)
    } else if y < 2500 {
        listed_easter_2400s(y)
    } else if y < 2600 {
        listed_easter_2500s(y)
    } else {
        (0, 0)
    }
}

/// The listed Easter dates of the years 1583 to 1599.
pub open spec fn listed_easter_1583s(y: u32) -> (int, int) {
    match y {
        1583 => (4, 10),
        1584 => (4, 1),
        1585 => (4, 21),
        1586 => (4, 6),
        1587 => (3, 29),
        1588 => (4, 17),
        1589 => (4, 2),
        1590 => (4, 22),
        1591 => (4, 14),
        1592 => (3, 29),
        1593 => (4, 18),
        1594 => (4, 10),
        1595 => (3, 26),
        1596 => (4, 14),
        1597 => (4, 6),
        1598 => (3, 22),
        1599 => (4, 11),
        _ => (0, 0),
    }
}

/// The listed Easter dates of the years 1600 to 1699.
pub open spec fn listed_easter_1600s(y: u32) -> (int, int) {
    match y {
        1600 => (4, 2),
        1601 => (4, 22),
        1602 => (4, 7),
        1603 => (3, 30),
        1604 => (4, 18),
        1605 => (4, 10),
        1606 => (3, 26),
        1607 => (4, 15),
        1608 => (4, 6),
        1609 => (4, 19),
        1610 => (4, 11),
        1611 => (4, 3),
        1612 => (4, 22),
        1613 => (4, 7),
        1614 => (3, 30),
        1615 => (4, 19),
        1616 => (4, 3),
        1617 => (3, 26),
        1618 => (4, 15),
        1619 => (3, 31),
        1620 => (4, 19),
        1621 => (4, 11),
        1622 => (3, 27),
        1623 => (4, 16),
        1624 => (4, 7),
        1625 => (3, 30),
        1626 => (4, 12),
        1627 => (4, 4),
        1628 => (4, 23),
        1629 => (4, 15),
        1630 => (3, 31),
        1631 => (4, 20),
        1632 => (4, 11),
        1633 => (3, 27),
        1634 => (4, 16),
        1635 => (4, 8),
        1636 => (3, 23),
        1637 => (4, 12),
        1638 => (4, 4),
        1639 => (4, 24),
        1640 => (4, 8),
        1641 => (3, 31),
        1642 => (4, 20),
        1643 => (4, 5),
        1644 => (3, 27),
        1645 => (4, 16),
        1646 => (4, 1),
        1647 => (4, 21),
        1648 => (4, 12),
        1649 => (4, 4),
        1650 => (4, 17),
        1651 => (4, 9),
        1652 => (3, 31),
        1653 => (4, 13),
        1654 => (4, 5),
        1655 => (3, 28),
        1656 => (4, 16),
        1657 => (4, 1),
        1658 => (4, 21),
        1659 => (4, 13),
        1660 => (3, 28),
        1661 => (4, 17),
        1662 => (4, 9),
        1663 => (3, 25),
        1664 => (4, 13),
        1665 => (4, 5),
        1666 => (4, 25),
        1667 => (4, 10),
        1668 => (4, 1),
        1669 => (4, 21),
        1670 => (4, 6),
        1671 => (3, 29),
        1672 => (4, 17),
        1673 => (4, 2),
        1674 => (3, 25),
        1675 => (4, 14),
        1676 => (4, 5),
        1677 => (4, 18),
        1678 => (4, 10),
        1679 => (4, 2),
        1680 => (4, 21),
        1681 => (4, 6),
        1682 => (3, 29),
        1683 => (4, 18),
        1684 => (4, 2),
        1685 => (4, 22),
        1686 => (4, 14),
        1687 => (3, 30),
        1688 => (4, 18),
        1689 => (4, 10),
        1690 => (3, 26),
        1691 => (4, 15),
        1692 => (4, 6),
        1693 => (3, 22),
        1694 => (4, 11),
        1695 => (4, 3),
        1696 => (4, 22),
        1697 => (4, 7),
        1698 => (3, 30),
        1699 => (4, 19),
        _ => (0, 0),
    }
}

/// The listed Easter dates of the years 1700 to 1799.
pub open spec fn listed_easter_1700s(y: u32) -> (int, int) {
    match y {
        1700 => (4, 11),
        1701 => (3, 27),
        1702 => (4, 16),
        1703 => (4, 8),
        1704 => (3, 23),
        1705 => (4, 12),
        1706 => (4, 4),
        1707 => (4, 24),
        1708 => (4, 8),
        1709 => (3, 31),
        1710 => (4, 20),
        1711 => (4, 5),
        1712 => (3, 27),
        1713 => (4, 16),
        1714 => (4, 1),
        1715 => (4, 21),
        1716 => (4, 12),
        1717 => (3, 28),
        1718 => (4, 17),
        1719 => (4, 9),
        1720 => (3, 31),
        1721 => (4, 13),
        1722 => (4, 5),
        1723 => (3, 28),
        1724 => (4, 16),
        1725 => (4, 1),
        1726 => (4, 21),
        1727 => (4, 13),
        1728 => (3, 28),
        1729 => (4, 17),
        1730 => (4, 9),
        1731 => (3, 25),
        1732 => (4, 13),
        1733 => (4, 5),
        1734 => (4, 25),
        1735 => (4, 10),
        1736 => (4, 1),
        1737 => (4, 21),
        1738 => (4, 6),
        1739 => (3, 29),
        1740 => (4, 17),
        1741 => (4, 2),
        1742 => (3, 25),
        1743 => (4, 14),
        1744 => (4, 5),
        1745 => (4, 18),
        1746 => (4, 10),
        1747 => (4, 2),
        1748 => (4, 14),
        1749 => (4, 6),
        1750 => (3, 29),
        1751 => (4, 11),
        1752 => (4, 2),
        1753 => (4, 22),
        1754 => (4, 14),
        1755 => (3, 30),
        1756 => (4, 18),
        1757 => (4, 10),
        1758 => (3, 26),
        1759 => (4, 15),
        1760 => (4, 6),
        1761 => (3, 22),
        1762 => (4, 11),
        1763 => (4, 3),
        1764 => (4, 22),
        1765 => (4, 7),
        1766 => (3, 30),
        1767 => (4, 19),
        1768 => (4, 3),
        1769 => (3, 26),
        1770 => (4, 15),
        1771 => (3, 31),
        1772 => (4, 19),
        1773 => (4, 11),
        1774 => (4, 3),
        1775 => (4, 16),
        1776 => (4, 7),
        1777 => (3, 30),
        1778 => (4, 19),
        1779 => (4, 4),
        1780 => (3, 26),
        1781 => (4, 15),
        1782 => (3, 31),
        1783 => (4, 20),
        1784 => (4, 11),
        1785 => (3, 27),
        1786 => (4, 16),
        1787 => (4, 8),
        1788 => (3, 23),
        1789 => (4, 12),
        1790 => (4, 4),
        1791 => (4, 24),
        1792 => (4, 8),
        1793 => (3, 31),
        1794 => (4, 20),
        1795 => (4, 5),
        1796 => (3, 27),
        1797 => (4, 16),
        1798 => (4, 8),
        1799 => (3, 24),
        _ => (0, 0),
    }
}

/// The listed Easter dates of the years 1800 to 1899.
pub open spec fn listed_easter_1800s(y: u32) -> (int, int) {
    match y {
        1800 => (4, 13),
        1801 => (4, 5),
        1802 => (4, 18),
        1803 => (4, 10),
        1804 => (4, 1),
        1805 => (4, 14),
        1806 => (4, 6),
        1807 => (3, 29),
        1808 => (4, 17),
        1809 => (4, 2),
        1810 => (4, 22),
        1811 => (4, 14),
        1812 => (3, 29),
        1813 => (4, 18),
        1814 => (4, 10),
        1815 => (3, 26),
        1816 => (4, 14),
        1817 => (4, 6),
        1818 => (3, 22),
        1819 => (4, 11),
        1820 => (4, 2),
        1821 => (4, 22),
        1822 => (4, 7),
        1823 => (3, 30),
        1824 => (4, 18),
        1825 => (4, 3),
        1826 => (3, 26),
        1827 => (4, 15),
        1828 => (4, 6),
        1829 => (4, 19),
        1830 => (4, 11),
        1831 => (4, 3),
        1832 => (4, 22),
        1833 => (4, 7),
        1834 => (3, 30),
        1835 => (4, 19),
        1836 => (4, 3),
        1837 => (3, 26),
        1838 => (4, 15),
        1839 => (3, 31),
        1840 => (4, 19),
        1841 => (4, 11),
        1842 => (3, 27),
        1843 => (4, 16),
        1844 => (4, 7),
        1845 => (3, 23),
        1846 => (4, 12),
        1847 => (4, 4),
        1848 => (4, 23),
        1849 => (4, 8),
        1850 => (3, 31),
        1851 => (4, 20),
        1852 => (4, 11),
        1853 => (3, 27),
        1854 => (4, 16),
        1855 => (4, 8),
        1856 => (3, 23),
        1857 => (4, 12),
        1858 => (4, 4),
        1859 => (4, 24),
        1860 => (4, 8),
        1861 => (3, 31),
        1862 => (4, 20),
        1863 => (4, 5),
        1864 => (3, 27),
        1865 => (4, 16),
        1866 => (4, 1),
        1867 => (4, 21),
        1868 => (4, 12),
        1869 => (3, 28),
        1870 => (4, 17),
        1871 => (4, 9),
        1872 => (3, 31),
        1873 => (4, 13),
        1874 => (4, 5),
        1875 => (3, 28),
        1876 => (4, 16),
        1877 => (4, 1),
        1878 => (4, 21),
        1879 => (4, 13),
        1880 => (3, 28),
        1881 => (4, 17),
        1882 => (4, 9),
        1883 => (3, 25),
        1884 => (4, 13),
        1885 => (4, 5),
        1886 => (4, 25),
        1887 => (4, 10),
        1888 => (4, 1),
        1889 => (4, 21),
        1890 => (4, 6),
        1891 => (3, 29),
        1892 => (4, 17),
        1893 => (4, 2),
        1894 => (3, 25),
        1895 => (4, 14),
        1896 => (4, 5),
        1897 => (4, 18),
        1898 => (4, 10),
        1899 => (4, 2),
        _ => (0, 0),
    }
}

/// The listed Easter dates of the years 1900 to 1999.
pub open spec fn listed_easter_1900s(y: u32) -> (int, int) {
    match y {
        1900 => (4, 15),
        1901 => (4, 7),
        1902 => (3, 30),
        1903 => (4, 12),
        1904 => (4, 3),
        1905 => (4, 23),
        1906 => (4, 15),
        1907 => (3, 31),
        1908 => (4, 19),
        1909 => (4, 11),
        1910 => (3, 27),
        1911 => (4, 16),
        1912 => (4, 7),
        1913 => (3, 23),
        1914 => (4, 12),
        1915 => (4, 4),
        1916 => (4, 23),
        1917 => (4, 8),
        1918 => (3, 31),
        1919 => (4, 20),
        1920 => (4, 4),
        1921 => (3, 27),
        1922 => (4, 16),
        1923 => (4, 1),
        1924 => (4, 20),
        1925 => (4, 12),
        1926 => (4, 4),
        1927 => (4, 17),
        1928 => (4, 8),
        1929 => (3, 31),
        1930 => (4, 20),
        1931 => (4, 5),
        1932 => (3, 27),
        1933 => (4, 16),
        1934 => (4, 1),
        1935 => (4, 21),
        1936 => (4, 12),
        1937 => (3, 28),
        1938 => (4, 17),
        1939 => (4, 9),
        1940 => (3, 24),
        1941 => (4, 13),
        1942 => (4, 5),
        1943 => (4, 25),
        1944 => (4, 9),
        1945 => (4, 1),
        1946 => (4, 21),
        1947 => (4, 6),
        1948 => (3, 28),
        1949 => (4, 17),
        1950 => (4, 9),
        1951 => (3, 25),
        1952 => (4, 13),
        1953 => (4, 5),
        1954 => (4, 18),
        1955 => (4, 10),
        1956 => (4, 1),
        1957 => (4, 21),
        1958 => (4, 6),
        1959 => (3, 29),
        1960 => (4, 17),
        1961 => (4, 2),
        1962 => (4, 22),
        1963 => (4, 14),
        1964 => (3, 29),
        1965 => (4, 18),
        1966 => (4, 10),
        1967 => (3, 26),
        1968 => (4, 14),
        1969 => (4, 6),
        1970 => (3, 29),
        1971 => (4, 11),
        1972 => (4, 2),
        1973 => (4, 22),
        1974 => (4, 14),
        1975 => (3, 30),
        1976 => (4, 18),
        1977 => (4, 10),
        1978 => (3, 26),
        1979 => (4, 15),
        1980 => (4, 6),
        1981 => (4, 19),
        1982 => (4, 11),
        1983 => (4, 3),
        1984 => (4, 22),
        1985 => (4, 7),
        1986 => (3, 30),
        1987 => (4, 19),
        1988 => (4, 3),
        1989 => (3, 26),
        1990 => (4, 15),
        1991 => (3, 31),
        1992 => (4, 19),
        1993 => (4, 11),
        1994 => (4, 3),
        1995 => (4, 16),
        1996 => (4, 7),
        1997 => (3, 30),
        1998 => (4, 12),
        1999 => (4, 4),
        _ => (0, 0),
    }
}

/// The listed Easter dates of the years 2000 to 2099.
pub open spec fn listed_easter_2000s(y: u32) -> (int, int) {
    match y {
        2000 => (4, 23),
        2001 => (4, 15),
        2002 => (3, 31),
        2003 => (4, 20),
        2004 => (4, 11),
        2005 => (3, 27),
        2006 => (4, 16),
        2007 => (4, 8),
        2008 => (3, 23),
        2009 => (4, 12),
        2010 => (4, 4),
        2011 => (4, 24),
        2012 => (4, 8),
        2013 => (3, 31),
        2014 => (4, 20),
        2015 => (4, 5),
        2016 => (3, 27),
        2017 => (4, 16),
        2018 => (4, 1),
        2019 => (4, 21),
        2020 => (4, 12),
        2021 => (4, 4),
        2022 => (4, 17),
        2023 => (4, 9),
        2024 => (3, 31),
        2025 => (4, 20),
        2026 => (4, 5),
        2027 => (3, 28),
        2028 => (4, 16),
        2029 => (4, 1),
        2030 => (4, 21),
        2031 => (4, 13),
        2032 => (3, 28),
        2033 => (4, 17),
        2034 => (4, 9),
        2035 => (3, 25),
        2036 => (4, 13),
        2037 => (4, 5),
        2038 => (4, 25),
        2039 => (4, 10),
        2040 => (4, 1),
        2041 => (4, 21),
        2042 => (4, 6),
        2043 => (3, 29),
        2044 => (4, 17),
        2045 => (4, 9),
        2046 => (3, 25),
        2047 => (4, 14),
        2048 => (4, 5),
        2049 => (4, 18),
        2050 => (4, 10),
        2051 => (4, 2),
        2052 => (4, 21),
        2053 => (4, 6),
        2054 => (3, 29),
        2055 => (4, 18),
        2056 => (4, 2),
        2057 => (4, 22),
        2058 => (4, 14),
        2059 => (3, 30),
        2060 => (4, 18),
        2061 => (4, 10),
        2062 => (3, 26),
        2063 => (4, 15),
        2064 => (4, 6),
        2065 => (3, 29),
        2066 => (4, 11),
        2067 => (4, 3),
        2068 => (4, 22),
        2069 => (4, 14),
        2070 => (3, 30),
        2071 => (4, 19),
        2072 => (4, 10),
        2073 => (3, 26),
        2074 => (4, 15),
        2075 => (4, 7),
        2076 => (4, 19),
        2077 => (4, 11),
        2078 => (4, 3),
        2079 => (4, 23),
        2080 => (4, 7),
        2081 => (3, 30),
        2082 => (4, 19),
        2083 => (4, 4),
        2084 => (3, 26),
        2085 => (4, 15),
        2086 => (3, 31),
        2087 => (4, 20),
        2088 => (4, 11),
        2089 => (4, 3),
        2090 => (4, 16),
        2091 => (4, 8),
        2092 => (3, 30),
        2093 => (4, 12),
        2094 => (4, 4),
        2095 => (4, 24),
        2096 => (4, 15),
        2097 => (3, 31),
        2098 => (4, 20),
        2099 => (4, 12),
        _ => (0, 0),
    }
}

/// The listed Easter dates of the years 2100 to 2199.
pub open spec fn listed_easter_2100s(y: u32) -> (int, int) {
    match y {
        2100 => (3, 28),
        2101 => (4, 17),
        2102 => (4, 9),
        2103 => (3, 25),
        2104 => (4, 13),
        2105 => (4, 5),
        2106 => (4, 18),
        2107 => (4, 10),
        2108 => (4, 1),
        2109 => (4, 21),
        2110 => (4, 6),
        2111 => (3, 29),
        2112 => (4, 17),
        2113 => (4, 2),
        2114 => (4, 22),
        2115 => (4, 14),
        2116 => (3, 29),
        2117 => (4, 18),
        2118 => (4, 10),
        2119 => (3, 26),
        2120 => (4, 14),
        2121 => (4, 6),
        2122 => (3, 29),
        2123 => (4, 11),
        2124 => (4, 2),
        2125 => (4, 22),
        2126 => (4, 14),
        2127 => (3, 30),
        2128 => (4, 18),
        2129 => (4, 10),
        2130 => (3, 26),
        2131 => (4, 15),
        2132 => (4, 6),
        2133 => (4, 19),
        2134 => (4, 11),
        2135 => (4, 3),
        2136 => (4, 22),
        2137 => (4, 7),
        2138 => (3, 30),
        2139 => (4, 19),
        2140 => (4, 3),
        2141 => (3, 26),
        2142 => (4, 15),
        2143 => (3, 31),
        2144 => (4, 19),
        2145 => (4, 11),
        2146 => (4, 3),
        2147 => (4, 16),
        2148 => (4, 7),
        2149 => (3, 30),
        2150 => (4, 12),
        2151 => (4, 4),
        2152 => (4, 23),
        2153 => (4, 15),
        2154 => (3, 31),
        2155 => (4, 20),
        2156 => (4, 11),
        2157 => (3, 27),
        2158 => (4, 16),
        2159 => (4, 8),
        2160 => (3, 23),
        2161 => (4, 12),
        2162 => (4, 4),
        2163 => (4, 24),
        2164 => (4, 8),
        2165 => (3, 31),
        2166 => (4, 20),
        2167 => (4, 5),
        2168 => (3, 27),
        2169 => (4, 16),
        2170 => (4, 1),
        2171 => (4, 21),
        2172 => (4, 12),
        2173 => (4, 4),
        2174 => (4, 17),
        2175 => (4, 9),
        2176 => (3, 31),
        2177 => (4, 20),
        2178 => (4, 5),
        2179 => (3, 28),
        2180 => (4, 16),
        2181 => (4, 1),
        2182 => (4, 21),
        2183 => (4, 13),
        2184 => (3, 28),
        2185 => (4, 17),
        2186 => (4, 9),
        2187 => (3, 25),
        2188 => (4, 13),
        2189 => (4, 5),
        2190 => (4, 25),
        2191 => (4, 10),
        2192 => (4, 1),
        2193 => (4, 21),
        2194 => (4, 6),
        2195 => (3, 29),
        2196 => (4, 17),
        2197 => (4, 9),
        2198 => (3, 25),
        2199 => (4, 14),
        _ => (0, 0),
    }
}

/// The listed Easter dates of the years 2200 to 2299.
pub open spec fn listed_easter_2200s(y: u32) -> (int, int) {
    match y {
        2200 => (4, 6),
        2201 => (4, 19),
        2202 => (4, 11),
        2203 => (4, 3),
        2204 => (4, 22),
        2205 => (4, 7),
        2206 => (3, 30),
        2207 => (4, 19),
        2208 => (4, 3),
        2209 => (3, 26),
        2210 => (4, 15),
        2211 => (3, 31),
        2212 => (4, 19),
        2213 => (4, 11),
        2214 => (3, 27),
        2215 => (4, 16),
        2216 => (4, 7),
        2217 => (3, 30),
        2218 => (4, 12),
        2219 => (4, 4),
        2220 => (4, 23),
        2221 => (4, 15),
        2222 => (3, 31),
        2223 => (4, 20),
        2224 => (4, 11),
        2225 => (3, 27),
        2226 => (4, 16),
        2227 => (4, 8),
        2228 => (3, 23),
        2229 => (4, 12),
        2230 => (4, 4),
        2231 => (4, 24),
        2232 => (4, 8),
        2233 => (3, 31),
        2234 => (4, 20),
        2235 => (4, 5),
        2236 => (3, 27),
        2237 => (4, 16),
        2238 => (4, 1),
        2239 => (4, 21),
        2240 => (4, 12),
        2241 => (4, 4),
        2242 => (4, 17),
        2243 => (4, 9),
        2244 => (3, 31),
        2245 => (4, 13),
        2246 => (4, 5),
        2247 => (3, 28),
        2248 => (4, 16),
        2249 => (4, 1),
        2250 => (4, 21),
        2251 => (4, 13),
        2252 => (3, 28),
        2253 => (4, 17),
        2254 => (4, 9),
        2255 => (3, 25),
        2256 => (4, 13),
        2257 => (4, 5),
        2258 => (4, 25),
        2259 => (4, 10),
        2260 => (4, 1),
        2261 => (4, 21),
        2262 => (4, 6),
        2263 => (3, 29),
        2264 => (4, 17),
        2265 => (4, 2),
        2266 => (3, 25),
        2267 => (4, 14),
        2268 => (4, 5),
        2269 => (4, 18),
        2270 => (4, 10),
        2271 => (4, 2),
        2272 => (4, 21),
        2273 => (4, 6),
        2274 => (3, 29),
        2275 => (4, 18),
        2276 => (4, 2),
        2277 => (4, 22),
        2278 => (4, 14),
        2279 => (3, 30),
        2280 => (4, 18),
        2281 => (4, 10),
        2282 => (3, 26),
        2283 => (4, 15),
        2284 => (4, 6),
        2285 => (3, 22),
        2286 => (4, 11),
        2287 => (4, 3),
        2288 => (4, 22),
        2289 => (4, 7),
        2290 => (3, 30),
        2291 => (4, 19),
        2292 => (4, 10),
        2293 => (3, 26),
        2294 => (4, 15),
        2295 => (4, 7),
        2296 => (4, 19),
        2297 => (4, 11),
        2298 => (4, 3),
        2299 => (4, 16),
        _ => (0, 0),
    }
}

/// The listed Easter dates of the years 2300 to 2399.
pub open spec fn listed_easter_2300s(y: u32) -> (int, int) {
    match y {
        2300 => (4, 8),
        2301 => (3, 31),
        2302 => (4, 20),
        2303 => (4, 5),
        2304 => (3, 27),
        2305 => (4, 16),
        2306 => (4, 1),
        2307 => (4, 21),
        2308 => (4, 12),
        2309 => (3, 28),
        2310 => (4, 17),
        2311 => (4, 9),
        2312 => (3, 31),
        2313 => (4, 13),
        2314 => (4, 5),
        2315 => (3, 28),
        2316 => (4, 16),
        2317 => (4, 1),
        2318 => (4, 21),
        2319 => (4, 6),
        2320 => (3, 28),
        2321 => (4, 17),
        2322 => (4, 9),
        2323 => (3, 25),
        2324 => (4, 13),
        2325 => (4, 5),
        2326 => (4, 25),
        2327 => (4, 10),
        2328 => (4, 1),
        2329 => (4, 21),
        2330 => (4, 6),
        2331 => (3, 29),
        2332 => (4, 17),
        2333 => (4, 2),
        2334 => (3, 25),
        2335 => (4, 14),
        2336 => (4, 5),
        2337 => (4, 18),
        2338 => (4, 10),
        2339 => (3, 26),
        2340 => (4, 14),
        2341 => (4, 6),
        2342 => (3, 29),
        2343 => (4, 11),
        2344 => (4, 2),
        2345 => (4, 22),
        2346 => (4, 14),
        2347 => (3, 30),
        2348 => (4, 18),
        2349 => (4, 10),
        2350 => (3, 26),
        2351 => (4, 15),
        2352 => (4, 6),
        2353 => (3, 22),
        2354 => (4, 11),
        2355 => (4, 3),
        2356 => (4, 22),
        2357 => (4, 7),
        2358 => (3, 30),
        2359 => (4, 19),
        2360 => (4, 3),
        2361 => (3, 26),
        2362 => (4, 15),
        2363 => (3, 31),
        2364 => (4, 19),
        2365 => (4, 11),
        2366 => (4, 3),
        2367 => (4, 16),
        2368 => (4, 7),
        2369 => (3, 30),
        2370 => (4, 19),
        2371 => (4, 4),
        2372 => (3, 26),
        2373 => (4, 15),
        2374 => (3, 31),
        2375 => (4, 20),
        2376 => (4, 11),
        2377 => (3, 27),
        2378 => (4, 16),
        2379 => (4, 8),
        2380 => (3, 23),
        2381 => (4, 12),
        2382 => (4, 4),
        2383 => (4, 24),
        2384 => (4, 8),
        2385 => (3, 31),
        2386 => (4, 20),
        2387 => (4, 5),
        2388 => (3, 27),
        2389 => (4, 16),
        2390 => (4, 8),
        2391 => (3, 24),
        2392 => (4, 12),
        2393 => (4, 4),
        2394 => (4, 17),
        2395 => (4, 9),
        2396 => (3, 31),
        2397 => (4, 20),
        2398 => (4, 5),
        2399 => (3, 28),
        _ => (0, 0),
    }
}

/// The listed Easter dates of the years 2400 to 2499.
pub open spec fn listed_easter_2400s(y: u32) -> (int, int) {
    match y {
        2400 => (4, 16),
        2401 => (4, 1),
        2402 => (4, 21),
        2403 => (4, 13),
        2404 => (3, 28),
        2405 => (4, 17),
        2406 => (4, 9),
        2407 => (3, 25),
        2408 => (4, 13),
        2409 => (4, 5),
        2410 => (4, 25),
        2411 => (4, 10),
        2412 => (4, 1),
        2413 => (4, 21),
        2414 => (4, 6),
        2415 => (3, 29),
        2416 => (4, 17),
        2417 => (4, 2),
        2418 => (3, 25),
        2419 => (4, 14),
        2420 => (4, 5),
        2421 => (4, 18),
        2422 => (4, 10),
        2423 => (4, 2),
        2424 => (4, 21),
        2425 => (4, 6),
        2426 => (3, 29),
        2427 => (4, 18),
        2428 => (4, 2),
        2429 => (4, 22),
        2430 => (4, 14),
        2431 => (3, 30),
        2432 => (4, 18),
        2433 => (4, 10),
        2434 => (3, 26),
        2435 => (4, 15),
        2436 => (4, 6),
        2437 => (3, 22),
        2438 => (4, 11),
        2439 => (4, 3),
        2440 => (4, 22),
        2441 => (4, 7),
        2442 => (3, 30),
        2443 => (4, 19),
        2444 => (4, 10),
        2445 => (3, 26),
        2446 => (4, 15),
        2447 => (4, 7),
        2448 => (4, 19),
        2449 => (4, 11),
        2450 => (4, 3),
        2451 => (4, 16),
        2452 => (4, 7),
        2453 => (3, 30),
        2454 => (4, 19),
        2455 => (4, 4),
        2456 => (3, 26),
        2457 => (4, 15),
        2458 => (3, 31),
        2459 => (4, 20),
        2460 => (4, 11),
        2461 => (3, 27),
        2462 => (4, 16),
        2463 => (4, 8),
        2464 => (3, 30),
        2465 => (4, 12),
        2466 => (4, 4),
        2467 => (4, 24),
        2468 => (4, 15),
        2469 => (3, 31),
        2470 => (4, 20),
        2471 => (4, 5),
        2472 => (3, 27),
        2473 => (4, 16),
        2474 => (4, 8),
        2475 => (3, 24),
        2476 => (4, 12),
        2477 => (4, 4),
        2478 => (4, 24),
        2479 => (4, 9),
        2480 => (3, 31),
        2481 => (4, 20),
        2482 => (4, 5),
        2483 => (3, 28),
        2484 => (4, 16),
        2485 => (4, 1),
        2486 => (4, 21),
        2487 => (4, 13),
        2488 => (4, 4),
        2489 => (4, 17),
        2490 => (4, 9),
        2491 => (3, 25),
        2492 => (4, 13),
        2493 => (4, 5),
        2494 => (3, 28),
        2495 => (4, 10),
        2496 => (4, 1),
        2497 => (4, 21),
        2498 => (4, 13),
        2499 => (3, 29),
        _ => (0, 0),
    }
}

/// The listed Easter dates of the years 2500 to 2599.
pub open spec fn listed_easter_2500s(y: u32) -> (int, int) {
    match y {
        2500 => (4, 18),
        2501 => (4, 10),
        2502 => (3, 26),
        2503 => (4, 15),
        2504 => (4, 6),
        2505 => (3, 22),
        2506 => (4, 11),
        2507 => (4, 3),
        2508 => (4, 22),
        2509 => (4, 7),
        2510 => (3, 30),
        2511 => (4, 19),
        2512 => (4, 3),
        2513 => (3, 26),
        2514 => (4, 15),
        2515 => (3, 31),
        2516 => (4, 19),
        2517 => (4, 11),
        2518 => (4, 3),
        2519 => (4, 16),
        2520 => (4, 7),
        2521 => (3, 30),
        2522 => (4, 19),
        2523 => (4, 4),
        2524 => (3, 26),
        2525 => (4, 15),
        2526 => (3, 31),
        2527 => (4, 20),
        2528 => (4, 11),
        2529 => (3, 27),
        2530 => (4, 16),
        2531 => (4, 8),
        2532 => (3, 23),
        2533 => (4, 12),
        2534 => (4, 4),
        2535 => (4, 24),
        2536 => (4, 8),
        2537 => (3, 31),
        2538 => (4, 20),
        2539 => (4, 5),
        2540 => (3, 27),
        2541 => (4, 16),
        2542 => (4, 8),
        2543 => (3, 24),
        2544 => (4, 12),
        2545 => (4, 4),
        2546 => (4, 17),
        2547 => (4, 9),
        2548 => (3, 31),
        2549 => (4, 20),
        2550 => (4, 5),
        2551 => (3, 28),
        2552 => (4, 16),
        2553 => (4, 1),
        2554 => (4, 21),
        2555 => (4, 13),
        2556 => (3, 28),
        2557 => (4, 17),
        2558 => (4, 9),
        2559 => (3, 25),
        2560 => (4, 13),
        2561 => (4, 5),
        2562 => (3, 28),
        2563 => (4, 10),
        2564 => (4, 1),
        2565 => (4, 21),
        2566 => (4, 6),
        2567 => (3, 29),
        2568 => (4, 17),
        2569 => (4, 9),
        2570 => (3, 25),
        2571 => (4, 14),
        2572 => (4, 5),
        2573 => (4, 25),
        2574 => (4, 10),
        2575 => (4, 2),
        2576 => (4, 21),
        2577 => (4, 6),
        2578 => (3, 29),
        2579 => (4, 18),
        2580 => (4, 2),
        2581 => (3, 25),
        2582 => (4, 14),
        2583 => (3, 30),
        2584 => (4, 18),
        2585 => (4, 10),
        2586 => (3, 26),
        2587 => (4, 15),
        2588 => (4, 6),
        2589 => (3, 29),
        2590 => (4, 11),
        2591 => (4, 3),
        2592 => (4, 22),
        2593 => (4, 14),
        2594 => (3, 30),
        2595 => (4, 19),
        2596 => (4, 10),
        2597 => (3, 26),
        2598 => (4, 15),
        2599 => (4, 7),
        _ => (0, 0),
    }
}

#[verifier::rlimit(30)]
proof fn lemma_listed_from_1583(y: int)
    requires
        1583 <= y < 1588,
    ensures
        easter_md(y) == listed_easter(y as u32),
{
    reveal(easter_md);
    assert(y == 1583 || y == 1584 || y == 1585 || y == 1586 || y == 1587);
}

#[verifier::rlimit(30)]
proof fn lemma_listed_from_1588(y: int)
    requires
        1588 <= y < 1593,
    ensures
        easter_md(y) == listed_easter(y as u32),
{
    reveal(easter_md);
    assert(y == 1588 || y == 1589 || y == 1590 || y == 1591 || y == 1592);
}

#[verifier::rlimit(30)]
proof fn lemma_listed_from_1593(y: int)
    requires
        1593 <= y < 1598,
    ensures
        easter_md(y) == listed_easter(y as u32),
{
    reveal(easter_md);
    assert(y == 1593 || y == 1594 || y == 1595 || y == 1596 || y == 1597);
}

#[verifier::rlimit(30)]
proof fn lemma_listed_from_1598(y: int)
    requires
        1598 <= y < 1603,
    ensures
        easter_md(y) == listed_easter(y as u32),
{
    reveal(easter_md);
    assert(y == 1598 || y == 1599 || y == 1600 || y == 1601 || y == 1602);
}

#[verifier::rlimit(30)]
proof fn lemma_listed_from_1603(y: int)
    requires
        1603 <= y < 1608,
    ensures
        easter_md(y) == listed_easter(y as u32),
{
    reveal(easter_md);
    assert(y == 1603 || y == 1604 || y == 1605 || y == 1606 || y == 1607);
}

#[verifier::rlimit(30)]
proof fn lemma_listed_from_1608(y: int)
    requires
        1608 <= y < 1613,
    ensures
        easter_md(y) == listed_easter(y as u32),
{
    reveal(easter_md);
    assert(y == 1608 || y == 1609 || y == 1610 || y == 1611 || y == 1612);
}

#[verifier::rlimit(30)]
proof fn lemma_listed_from_1613(y: int)
    requires
        1613 <= y < 1618,
    ensures
        easter_md(y) == listed_easter(y as u32),
{
    reveal(easter_md);
    assert(y == 1613 || y == 1614 || y == 1615 || y == 1616 || y == 1617);
}

#[verifier::rlimit(30)]
proof fn lemma_listed_from_1618(y: int)
    requires
        1618 <= y < 1623,
    ensures
        easter_md(y) == listed_easter(y as u32),
{
    reveal(easter_md);
    assert(y == 1618 || y == 1619 || y == 1620 || y == 1621 || y == 1622);
}

#[verifier::rlimit(30)]
proof fn lemma_listed_from_1623(y: int)
    requires
        1623 <= y < 1628,
    ensures
        easter_md(y) == listed_easter(y as u32),
{
    reveal(easter_md);
    assert(y == 1623 || y == 1624 || y == 1625 || y == 1626 || y == 1627);
}

#[verifier::rlimit(30)]
proof fn lemma_listed_from_1628(y: int)
    requires
        1628 <= y < 1633,
    ensures
        easter_md(y) == listed_easter(y as u32),
{
    reveal(easter_md);
    assert(y == 1628 || y == 1629 || y == 1630 || y == 1631 || y == 1632);
}

#[verifier::rlimit(30)]
proof fn lemma_listed_from_1633(y: int)
    requires
        1633 <= y < 1638,
    ensures
        easter_md(y) == listed_easter(y as u32),
{
    reveal(easter_md);
    assert(y == 1633 || y == 1634 || y == 1635 || y == 1636 || y == 1637);
}

#[verifier::rlimit(30)]
proof fn lemma_listed_from_1638(y: int)
    requires
        1638 <= y < 1643,
    ensures
        easter_md(y) == listed_easter(y as u32),
{
    reveal(easter_md);
    assert(y == 1638 || y == 1639 || y == 1640 || y == 1641 || y == 1642);
}

#[verifier::rlimit(30)]
proof fn lemma_listed_from_1643(y: int)
    requires
        1643 <= y < 1648,
    ensures
        easter_md(y) == listed_easter(y as u32),
{
    reveal(easter_md);
    assert(y == 1643 || y == 1644 || y == 1645 || y == 1646 || y == 1647);
}

#[verifier::rlimit(30)]
proof fn lemma_listed_from_1648(y: int)
    requires
        1648 <= y < 1653,
    ensures
        easter_md(y) == listed_easter(y as u32),
{
    reveal(easter_md);
    assert(y == 1648 || y == 1649 || y == 1650 || y == 1651 || y == 1652);
}

#[verifier::rlimit(30)]
proof fn lemma_listed_from_1653(y: int)
    requires
        1653 <= y < 1658,
    ensures
        easter_md(y) == listed_easter(y as u32),
{
    reveal(easter_md);
    assert(y == 1653 || y == 1654 || y == 1655 || y == 1656 || y == 1657);
}

#[verifier::rlimit(30)]
proof fn lemma_listed_from_1658(y: int)
    requires
        1658 <= y < 1663,
    ensures
        easter_md(y) == listed_easter(y as u32),
{
    reveal(easter_md);
    assert(y == 1658 || y == 1659 || y == 1660 || y == 1661 || y == 1662);
}

#[verifier::rlimit(30)]
proof fn lemma_listed_from_1663(y: int)
    requires
        1663 <= y < 1668,
    ensures
        easter_md(y) == listed_easter(y as u32),
{
    reveal(easter_md);
    assert(y == 1663 || y == 1664 || y == 1665 || y == 1666 || y == 1667);
}

#[verifier::rlimit(30)]
proof fn lemma_listed_from_1668(y: int)
    requires
        1668 <= y < 1673,
    ensures
        easter_md(y) == listed_easter(y as u32),
{
    reveal(easter_md);
    assert(y == 1668 || y == 1669 || y == 1670 || y == 1671 || y == 1672);
}

#[verifier::rlimit(30)]
proof fn lemma_listed_from_1673(y: int)
    requires
        1673 <= y < 1678,
    ensures
        easter_md(y) == listed_easter(y as u32),
{
    reveal(easter_md);
    assert(y == 1673 || y == 1674 || y == 1675 || y == 1676 || y == 1677);
}

#[verifier::rlimit(30)]
proof fn lemma_listed_from_1678(y: int)
    requires
        1678 <= y < 1683,
    ensures
        easter_md(y) == listed_easter(y as u32),
{
    reveal(easter_md);
    assert(y == 1678 || y == 1679 || y == 1680 || y == 1681 || y == 1682);
}

#[verifier::rlimit(30)]
proof fn lemma_listed_from_1683(y: int)
    requires
        1683 <= y < 1688,
    ensures
        easter_md(y) == listed_easter(y as u32),
{
    reveal(easter_md);
    assert(y == 1683 || y == 1684 || y == 1685 || y == 1686 || y == 1687);
}

#[verifier::rlimit(30)]
proof fn lemma_listed_from_1688(y: int)
    requires
        1688 <= y < 1693,
    ensures
        easter_md(y) == listed_easter(y as u32),
{
    reveal(easter_md);
    assert(y == 1688 || y == 1689 || y == 1690 || y == 1691 || y == 1692);
}

#[verifier::rlimit(30)]
proof fn lemma_listed_from_1693(y: int)
    requires
        1693 <= y < 1698,
    ensures
        easter_md(y) == listed_easter(y as u32),
{
    reveal(easter_md);
    assert(y == 1693 || y == 1694 || y == 1695 || y == 1696 || y == 1697);
}

#[verifier::rlimit(30)]
proof fn lemma_listed_from_1698(y: int)
    requires
        1698 <= y < 1703,
    ensures
        easter_md(y) == listed_easter(y as u32),
{
    reveal(easter_md);
    assert(y == 1698 || y == 1699 || y == 1700 || y == 1701 || y == 1702);
}

#[verifier::rlimit(30)]
proof fn lemma_listed_from_1703(y: int)
    requires
        1703 <= y < 1708,
    ensures
        easter_md(y) == listed_easter(y as u32),
{
    reveal(easter_md);
    assert(y == 1703 || y == 1704 || y == 1705 || y == 1706 || y == 1707);
}

#[verifier::rlimit(30)]
proof fn lemma_listed_from_1708(y: int)
    requires
        1708 <= y < 1713,
    ensures
        easter_md(y) == listed_easter(y as u32),
{
    reveal(easter_md);
    assert(y == 1708 || y == 1709 || y == 1710 || y == 1711 || y == 1712);
}

#[verifier::rlimit(30)]
proof fn lemma_listed_from_1713(y: int)
    requires
        1713 <= y < 1718,
    ensures
        easter_md(y) == listed_easter(y as u32),
{
    reveal(easter_md);
    assert(y == 1713 || y == 1714 || y == 1715 || y == 1716 || y == 1717);
}

#[verifier::rlimit(30)]
proof fn lemma_listed_from_1718(y: int)
    requires
        1718 <= y < 1723,
    ensures
        easter_md(y) == listed_easter(y as u32),
{
    reveal(easter_md);
    assert(y == 1718 || y == 1719 || y == 1720 || y == 1721 || y == 1722);
}

#[verifier::rlimit(30)]
proof fn lemma_listed_from_1723(y: int)
    requires
        1723 <= y < 1728,
    ensures
        easter_md(y) == listed_easter(y as u32),
{
    reveal(easter_md);
    assert(y == 1723 || y == 1724 || y == 1725 || y == 1726 || y == 1727);
}

#[verifier::rlimit(30)]
proof fn lemma_listed_from_1728(y: int)
    requires
        1728 <= y < 1733,
    ensures
        easter_md(y) == listed_easter(y as u32),
{
    reveal(easter_md);
    assert(y == 1728 || y == 1729 || y == 1730 || y == 1731 || y == 1732);
}

#[verifier::rlimit(30)]
proof fn lemma_listed_from_1733(y: int)
    requires
        1733 <= y < 1738,
    ensures
        easter_md(y) == listed_easter(y as u32),
{
    reveal(easter_md);
    assert(y == 1733 || y == 1734 || y == 1735 || y == 1736 || y == 1737);
}

#[verifier::rlimit(30)]
proof fn lemma_listed_from_1738(y: int)
    requires
        1738 <= y < 1743,
    ensures
        easter_md(y) == listed_easter(y as u32),
{
    reveal(easter_md);
    assert(y == 1738 || y == 1739 || y == 1740 || y == 1741 || y == 1742);
}

#[verifier::rlimit(30)]
proof fn lemma_listed_from_1743(y: int)
    requires
        1743 <= y < 1748,
    ensures
        easter_md(y) == listed_easter(y as u32),
{
    reveal(easter_md);
    assert(y == 1743 || y == 1744 || y == 1745 || y == 1746 || y == 1747);
}

#[verifier::rlimit(30)]
proof fn lemma_listed_from_1748(y: int)
    requires
        1748 <= y < 1753,
    ensures
        easter_md(y) == listed_easter(y as u32),
{
    reveal(easter_md);
    assert(y == 1748 || y == 1749 || y == 1750 || y == 1751 || y == 1752);
}

#[verifier::rlimit(30)]
proof fn lemma_listed_from_1753(y: int)
    requires
        1753 <= y < 1758,
    ensures
        easter_md(y) == listed_easter(y as u32),
{
    reveal(easter_md);
    assert(y == 1753 || y == 1754 || y == 1755 || y == 1756 || y == 1757);
}

#[verifier::rlimit(30)]
proof fn lemma_listed_from_1758(y: int)
    requires
        1758 <= y < 1763,
    ensures
        easter_md(y) == listed_easter(y as u32),
{
    reveal(easter_md);
    assert(y == 1758 || y == 1759 || y == 1760 || y == 1761 || y == 1762);
}

#[verifier::rlimit(30)]
proof fn lemma_listed_from_1763(y: int)
    requires
        1763 <= y < 1768,
    ensures
        easter_md(y) == listed_easter(y as u32),
{
    reveal(easter_md);
    assert(y == 1763 || y == 1764 || y == 1765 || y == 1766 || y == 1767);
}

#[verifier::rlimit(30)]
proof fn lemma_listed_from_1768(y: int)
    requires
        1768 <= y < 1773,
    ensures
        easter_md(y) == listed_easter(y as u32),
{
    reveal(easter_md);
    assert(y == 1768 || y == 1769 || y == 1770 || y == 1771 || y == 1772);
}

#[verifier::rlimit(30)]
proof fn lemma_listed_from_1773(y: int)
    requires
        1773 <= y < 1778,
    ensures
        easter_md(y) == listed_easter(y as u32),
{
    reveal(easter_md);
    assert(y == 1773 || y == 1774 || y == 1775 || y == 1776 || y == 1777);
}

#[verifier::rlimit(30)]
proof fn lemma_listed_from_1778(y: int)
    requires
        1778 <= y < 1783,
    ensures
        easter_md(y) == listed_easter(y as u32),
{
    reveal(easter_md);
    assert(y == 1778 || y == 1779 || y == 1780 || y == 1781 || y == 1782);
}

#[verifier::rlimit(30)]
proof fn lemma_listed_from_1783(y: int)
    requires
        1783 <= y < 1788,
    ensures
        easter_md(y) == listed_easter(y as u32),
{
    reveal(easter_md);
    assert(y == 1783 || y == 1784 || y == 1785 || y == 1786 || y == 1787);
}

#[verifier::rlimit(30)]
proof fn lemma_listed_from_1788(y: int)
    requires
        1788 <= y < 1793,
    ensures
        easter_md(y) == listed_easter(y as u32),
{
    reveal(easter_md);
    assert(y == 1788 || y == 1789 || y == 1790 || y == 1791 || y == 1792);
}

#[verifier::rlimit(30)]
proof fn lemma_listed_from_1793(y: int)
    requires
        1793 <= y < 1798,
    ensures
        easter_md(y) == listed_easter(y as u32),
{
    reveal(easter_md);
    assert(y == 1793 || y == 1794 || y == 1795 || y == 1796 || y == 1797);
}

#[verifier::rlimit(30)]
proof fn lemma_listed_from_1798(y: int)
    requires
        1798 <= y < 1803,
    ensures
        easter_md(y) == listed_easter(y as u32),
{
    reveal(easter_md);
    assert(y == 1798 || y == 1799 || y == 1800 || y == 1801 || y == 1802);
}

#[verifier::rlimit(30)]
proof fn lemma_listed_from_1803(y: int)
    requires
        1803 <= y < 1808,
    ensures
        easter_md(y) == listed_easter(y as u32),
{
    reveal(easter_md);
    assert(y == 1803 || y == 1804 || y == 1805 || y == 1806 || y == 1807);
}

#[verifier::rlimit(30)]
proof fn lemma_listed_from_1808(y: int)
    requires
        1808 <= y < 1813,
    ensures
        easter_md(y) == listed_easter(y as u32),
{
    reveal(easter_md);
    assert(y == 1808 || y == 1809 || y == 1810 || y == 1811 || y == 1812);
}

#[verifier::rlimit(30)]
proof fn lemma_listed_from_1813(y: int)
    requires
        1813 <= y < 1818,
    ensures
        easter_md(y) == listed_easter(y as u32),
{
    reveal(easter_md);
    assert(y == 1813 || y == 1814 || y == 1815 || y == 1816 || y == 1817);
}

#[verifier::rlimit(30)]
proof fn lemma_listed_from_1818(y: int)
    requires
        1818 <= y < 1823,
    ensures
        easter_md(y) == listed_easter(y as u32),
{
    reveal(easter_md);
    assert(y == 1818 || y == 1819 || y == 1820 || y == 1821 || y == 1822);
}

#[verifier::rlimit(30)]
proof fn lemma_listed_from_1823(y: int)
    requires
        1823 <= y < 1828,
    ensures
        easter_md(y) == listed_easter(y as u32),
{
    reveal(easter_md);
    assert(y == 1823 || y == 1824 || y == 1825 || y == 1826 || y == 1827);
}

#[verifier::rlimit(30)]
proof fn lemma_listed_from_1828(y: int)
    requires
        1828 <= y < 1833,
    ensures
        easter_md(y) == listed_easter(y as u32),
{
    reveal(easter_md);
    assert(y == 1828 || y == 1829 || y == 1830 || y == 1831 || y == 1832);
}

#[verifier::rlimit(30)]
proof fn lemma_listed_from_1833(y: int)
    requires
        1833 <= y < 1838,
    ensures
        easter_md(y) == listed_easter(y as u32),
{
    reveal(easter_md);
    assert(y == 1833 || y == 1834 || y == 1835 || y == 1836 || y == 1837);
}

#[verifier::rlimit(30)]
proof fn lemma_listed_from_1838(y: int)
    requires
        1838 <= y < 1843,
    ensures
        easter_md(y) == listed_easter(y as u32),
{
    reveal(easter_md);
    assert(y == 1838 || y == 1839 || y == 1840 || y == 1841 || y == 1842);
}

#[verifier::rlimit(30)]
proof fn lemma_listed_from_1843(y: int)
    requires
        1843 <= y < 1848,
    ensures
        easter_md(y) == listed_easter(y as u32),
{
    reveal(easter_md);
    assert(y == 1843 || y == 1844 || y == 1845 || y == 1846 || y == 1847);
}

#[verifier::rlimit(30)]
proof fn lemma_listed_from_1848(y: int)
    requires
        1848 <= y < 1853,
    ensures
        easter_md(y) == listed_easter(y as u32),
{
    reveal(easter_md);
    assert(y == 1848 || y == 1849 || y == 1850 || y == 1851 || y == 1852);
}

#[verifier::rlimit(30)]
proof fn lemma_listed_from_1853(y: int)
    requires
        1853 <= y < 1858,
    ensures
        easter_md(y) == listed_easter(y as u32),
{
    reveal(easter_md);
    assert(y == 1853 || y == 1854 || y == 1855 || y == 1856 || y == 1857);
}

#[verifier::rlimit(30)]
proof fn lemma_listed_from_1858(y: int)
    requires
        1858 <= y < 1863,
    ensures
        easter_md(y) == listed_easter(y as u32),
{
    reveal(easter_md);
    assert(y == 1858 || y == 1859 || y == 1860 || y == 1861 || y == 1862);
}

#[verifier::rlimit(30)]
proof fn lemma_listed_from_1863(y: int)
    requires
        1863 <= y < 1868,
    ensures
        easter_md(y) == listed_easter(y as u32),
{
    reveal(easter_md);
    assert(y == 1863 || y == 1864 || y == 1865 || y == 1866 || y == 1867);
}

#[verifier::rlimit(30)]
proof fn lemma_listed_from_1868(y: int)
    requires
        1868 <= y < 1873,
    ensures
        easter_md(y) == listed_easter(y as u32),
{
    reveal(easter_md);
    assert(y == 1868 || y == 1869 || y == 1870 || y == 1871 || y == 1872);
}

#[verifier::rlimit(30)]
proof fn lemma_listed_from_1873(y: int)
    requires
        1873 <= y < 1878,
    ensures
        easter_md(y) == listed_easter(y as u32),
{
    reveal(easter_md);
    assert(y == 1873 || y == 1874 || y == 1875 || y == 1876 || y == 1877);
}

#[verifier::rlimit(30)]
proof fn lemma_listed_from_1878(y: int)
    requires
        1878 <= y < 1883,
    ensures
        easter_md(y) == listed_easter(y as u32),
{
    reveal(easter_md);
    assert(y == 1878 || y == 1879 || y == 1880 || y == 1881 || y == 1882);
}

#[verifier::rlimit(30)]
proof fn lemma_listed_from_1883(y: int)
    requires
        1883 <= y < 1888,
    ensures
        easter_md(y) == listed_easter(y as u32),
{
    reveal(easter_md);
    assert(y == 1883 || y == 1884 || y == 1885 || y == 1886 || y == 1887);
}

#[verifier::rlimit(30)]
proof fn lemma_listed_from_1888(y: int)
    requires
        1888 <= y < 1893,
    ensures
        easter_md(y) == listed_easter(y as u32),
{
    reveal(easter_md);
    assert(y == 1888 || y == 1889 || y == 1890 || y == 1891 || y == 1892);
}

#[verifier::rlimit(30)]
proof fn lemma_listed_from_1893(y: int)
    requires
        1893 <= y < 1898,
    ensures
        easter_md(y) == listed_easter(y as u32),
{
    reveal(easter_md);
    assert(y == 1893 || y == 1894 || y == 1895 || y == 1896 || y == 1897);
}

#[verifier::rlimit(30)]
proof fn lemma_listed_from_1898(y: int)
    requires
        1898 <= y < 1903,
    ensures
        easter_md(y) == listed_easter(y as u32),
{
    reveal(easter_md);
    assert(y == 1898 || y == 1899 || y == 1900 || y == 1901 || y == 1902);
}

#[verifier::rlimit(30)]
proof fn lemma_listed_from_1903(y: int)
    requires
        1903 <= y < 1908,
    ensures
        easter_md(y) == listed_easter(y as u32),
{
    reveal(easter_md);
    assert(y == 1903 || y == 1904 || y == 1905 || y == 1906 || y == 1907);
}

#[verifier::rlimit(30)]
proof fn lemma_listed_from_1908(y: int)
    requires
        1908 <= y < 1913,
    ensures
        easter_md(y) == listed_easter(y as u32),
{
    reveal(easter_md);
    assert(y == 1908 || y == 1909 || y == 1910 || y == 1911 || y == 1912);
}

#[verifier::rlimit(30)]
proof fn lemma_listed_from_1913(y: int)
    requires
        1913 <= y < 1918,
    ensures
        easter_md(y) == listed_easter(y as u32),
{
    reveal(easter_md);
    assert(y == 1913 || y == 1914 || y == 1915 || y == 1916 || y == 1917);
}

#[verifier::rlimit(30)]
proof fn lemma_listed_from_1918(y: int)
    requires
        1918 <= y < 1923,
    ensures
        easter_md(y) == listed_easter(y as u32),
{
    reveal(easter_md);
    assert(y == 1918 || y == 1919 || y == 1920 || y == 1921 || y == 1922);
}

#[verifier::rlimit(30)]
proof fn lemma_listed_from_1923(y: int)
    requires
        1923 <= y < 1928,
    ensures
        easter_md(y) == listed_easter(y as u32),
{
    reveal(easter_md);
    assert(y == 1923 || y == 1924 || y == 1925 || y == 1926 || y == 1927);
}

#[verifier::rlimit(30)]
proof fn lemma_listed_from_1928(y: int)
    requires
        1928 <= y < 1933,
    ensures
        easter_md(y) == listed_easter(y as u32),
{
    reveal(easter_md);
    assert(y == 1928 || y == 1929 || y == 1930 || y == 1931 || y == 1932);
}

#[verifier::rlimit(30)]
proof fn lemma_listed_from_1933(y: int)
    requires
        1933 <= y < 1938,
    ensures
        easter_md(y) == listed_easter(y as u32),
{
    reveal(easter_md);
    assert(y == 1933 || y == 1934 || y == 1935 || y == 1936 || y == 1937);
}

#[verifier::rlimit(30)]
proof fn lemma_listed_from_1938(y: int)
    requires
        1938 <= y < 1943,
    ensures
        easter_md(y) == listed_easter(y as u32),
{
    reveal(easter_md);
    assert(y == 1938 || y == 1939 || y == 1940 || y == 1941 || y == 1942);
}

#[verifier::rlimit(30)]
proof fn lemma_listed_from_1943(y: int)
    requires
        1943 <= y < 1948,
    ensures
        easter_md(y) == listed_easter(y as u32),
{
    reveal(easter_md);
    assert(y == 1943 || y == 1944 || y == 1945 || y == 1946 || y == 1947);
}

#[verifier::rlimit(30)]
proof fn lemma_listed_from_1948(y: int)
    requires
        1948 <= y < 1953,
    ensures
        easter_md(y) == listed_easter(y as u32),
{
    reveal(easter_md);
    assert(y == 1948 || y == 1949 || y == 1950 || y == 1951 || y == 1952);
}

#[verifier::rlimit(30)]
proof fn lemma_listed_from_1953(y: int)
    requires
        1953 <= y < 1958,
    ensures
        easter_md(y) == listed_easter(y as u32),
{
    reveal(easter_md);
    assert(y == 1953 || y == 1954 || y == 1955 || y == 1956 || y == 1957);
}

#[verifier::rlimit(30)]
proof fn lemma_listed_from_1958(y: int)
    requires
        1958 <= y < 1963,
    ensures
        easter_md(y) == listed_easter(y as u32),
{
    reveal(easter_md);
    assert(y == 1958 || y == 1959 || y == 1960 || y == 1961 || y == 1962);
}

#[verifier::rlimit(30)]
proof fn lemma_listed_from_1963(y: int)
    requires
        1963 <= y < 1968,
    ensures
        easter_md(y) == listed_easter(y as u32),
{
    reveal(easter_md);
    assert(y == 1963 || y == 1964 || y == 1965 || y == 1966 || y == 1967);
}

#[verifier::rlimit(30)]
proof fn lemma_listed_from_1968(y: int)
    requires
        1968 <= y < 1973,
    ensures
        easter_md(y) == listed_easter(y as u32),
{
    reveal(easter_md);
    assert(y == 1968 || y == 1969 || y == 1970 || y == 1971 || y == 1972);
}

#[verifier::rlimit(30)]
proof fn lemma_listed_from_1973(y: int)
    requires
        1973 <= y < 1978,
    ensures
        easter_md(y) == listed_easter(y as u32),
{
    reveal(easter_md);
    assert(y == 1973 || y == 1974 || y == 1975 || y == 1976 || y == 1977);
}

#[verifier::rlimit(30)]
proof fn lemma_listed_from_1978(y: int)
    requires
        1978 <= y < 1983,
    ensures
        easter_md(y) == listed_easter(y as u32),
{
    reveal(easter_md);
    assert(y == 1978 || y == 1979 || y == 1980 || y == 1981 || y == 1982);
}

#[verifier::rlimit(30)]
proof fn lemma_listed_from_1983(y: int)
    requires
        1983 <= y < 1988,
    ensures
        easter_md(y) == listed_easter(y as u32),
{
    reveal(easter_md);
    assert(y == 1983 || y == 1984 || y == 1985 || y == 1986 || y == 1987);
}

#[verifier::rlimit(30)]
proof fn lemma_listed_from_1988(y: int)
    requires
        1988 <= y < 1993,
    ensures
        easter_md(y) == listed_easter(y as u32),
{
    reveal(easter_md);
    assert(y == 1988 || y == 1989 || y == 1990 || y == 1991 || y == 1992);
}

#[verifier::rlimit(30)]
proof fn lemma_listed_from_1993(y: int)
    requires
        1993 <= y < 1998,
    ensures
        easter_md(y) == listed_easter(y as u32),
{
    reveal(easter_md);
    assert(y == 1993 || y == 1994 || y == 1995 || y == 1996 || y == 1997);
}

#[verifier::rlimit(30)]
proof fn lemma_listed_from_1998(y: int)
    requires
        1998 <= y < 2003,
    ensures
        easter_md(y) == listed_easter(y as u32),
{
    reveal(easter_md);
    assert(y == 1998 || y == 1999 || y == 2000 || y == 2001 || y == 2002);
}

#[verifier::rlimit(30)]
proof fn lemma_listed_from_2003(y: int)
    requires
        2003 <= y < 2008,
    ensures
        easter_md(y) == listed_easter(y as u32),
{
    reveal(easter_md);
    assert(y == 2003 || y == 2004 || y == 2005 || y == 2006 || y == 2007);
}

#[verifier::rlimit(30)]
proof fn lemma_listed_from_2008(y: int)
    requires
        2008 <= y < 2013,
    ensures
        easter_md(y) == listed_easter(y as u32),
{
    reveal(easter_md);
    assert(y == 2008 || y == 2009 || y == 2010 || y == 2011 || y == 2012);
}

#[verifier::rlimit(30)]
proof fn lemma_listed_from_2013(y: int)
    requires
        2013 <= y < 2018,
    ensures
        easter_md(y) == listed_easter(y as u32),
{
    reveal(easter_md);
    assert(y == 2013 || y == 2014 || y == 2015 || y == 2016 || y == 2017);
}

#[verifier::rlimit(30)]
proof fn lemma_listed_from_2018(y: int)
    requires
        2018 <= y < 2023,
    ensures
        easter_md(y) == listed_easter(y as u32),
{
    reveal(easter_md);
    assert(y == 2018 || y == 2019 || y == 2020 || y == 2021 || y == 2022);
}

#[verifier::rlimit(30)]
proof fn lemma_listed_from_2023(y: int)
    requires
        2023 <= y < 2028,
    ensures
        easter_md(y) == listed_easter(y as u32),
{
    reveal(easter_md);
    assert(y == 2023 || y == 2024 || y == 2025 || y == 2026 || y == 2027);
}

#[verifier::rlimit(30)]
proof fn lemma_listed_from_2028(y: int)
    requires
        2028 <= y < 2033,
    ensures
        easter_md(y) == listed_easter(y as u32),
{
    reveal(easter_md);
    assert(y == 2028 || y == 2029 || y == 2030 || y == 2031 || y == 2032);
}

#[verifier::rlimit(30)]
proof fn lemma_listed_from_2033(y: int)
    requires
        2033 <= y < 2038,
    ensures
        easter_md(y) == listed_easter(y as u32),
{
    reveal(easter_md);
    assert(y == 2033 || y == 2034 || y == 2035 || y == 2036 || y == 2037);
}

#[verifier::rlimit(30)]
proof fn lemma_listed_from_2038(y: int)
    requires
        2038 <= y < 2043,
    ensures
        easter_md(y) == listed_easter(y as u32),
{
    reveal(easter_md);
    assert(y == 2038 || y == 2039 || y == 2040 || y == 2041 || y == 2042);
}

#[verifier::rlimit(30)]
proof fn lemma_listed_from_2043(y: int)
    requires
        2043 <= y < 2048,
    ensures
        easter_md(y) == listed_easter(y as u32),
{
    reveal(easter_md);
    assert(y == 2043 || y == 2044 || y == 2045 || y == 2046 || y == 2047);
}

#[verifier::rlimit(30)]
proof fn lemma_listed_from_2048(y: int)
    requires
        2048 <= y < 2053,
    ensures
        easter_md(y) == listed_easter(y as u32),
{
    reveal(easter_md);
    assert(y == 2048 || y == 2049 || y == 2050 || y == 2051 || y == 2052);
}

#[verifier::rlimit(30)]
proof fn lemma_listed_from_2053(y: int)
    requires
        2053 <= y < 2058,
    ensures
        easter_md(y) == listed_easter(y as u32),
{
    reveal(easter_md);
    assert(y == 2053 || y == 2054 || y == 2055 || y == 2056 || y == 2057);
}

#[verifier::rlimit(30)]
proof fn lemma_listed_from_2058(y: int)
    requires
        2058 <= y < 2063,
    ensures
        easter_md(y) == listed_easter(y as u32),
{
    reveal(easter_md);
    assert(y == 2058 || y == 2059 || y == 2060 || y == 2061 || y == 2062);
}

#[verifier::rlimit(30)]
proof fn lemma_listed_from_2063(y: int)
    requires
        2063 <= y < 2068,
    ensures
        easter_md(y) == listed_easter(y as u32),
{
    reveal(easter_md);
    assert(y == 2063 || y == 2064 || y == 2065 || y == 2066 || y == 2067);
}

#[verifier::rlimit(30)]
proof fn lemma_listed_from_2068(y: int)
    requires
        2068 <= y < 2073,
    ensures
        easter_md(y) == listed_easter(y as u32),
{
    reveal(easter_md);
    assert(y == 2068 || y == 2069 || y == 2070 || y == 2071 || y == 2072);
}

#[verifier::rlimit(30)]
proof fn lemma_listed_from_2073(y: int)
    requires
        2073 <= y < 2078,
    ensures
        easter_md(y) == listed_easter(y as u32),
{
    reveal(easter_md);
    assert(y == 2073 || y == 2074 || y == 2075 || y == 2076 || y == 2077);
}

#[verifier::rlimit(30)]
proof fn lemma_listed_from_2078(y: int)
    requires
        2078 <= y < 2083,
    ensures
        easter_md(y) == listed_easter(y as u32),
{
    reveal(easter_md);
    assert(y == 2078 || y == 2079 || y == 2080 || y == 2081 || y == 2082);
}

#[verifier::rlimit(30)]
proof fn lemma_listed_from_2083(y: int)
    requires
        2083 <= y < 2088,
    ensures
        easter_md(y) == listed_easter(y as u32),
{
    reveal(easter_md);
    assert(y == 2083 || y == 2084 || y == 2085 || y == 2086 || y == 2087);
}

#[verifier::rlimit(30)]
proof fn lemma_listed_from_2088(y: int)
    requires
        2088 <= y < 2093,
    ensures
        easter_md(y) == listed_easter(y as u32),
{
    reveal(easter_md);
    assert(y == 2088 || y == 2089 || y == 2090 || y == 2091 || y == 2092);
}

#[verifier::rlimit(30)]
proof fn lemma_listed_from_2093(y: int)
    requires
        2093 <= y < 2098,
    ensures
        easter_md(y) == listed_easter(y as u32),
{
    reveal(easter_md);
    assert(y == 2093 || y == 2094 || y == 2095 || y == 2096 || y == 2097);
}

#[verifier::rlimit(30)]
proof fn lemma_listed_from_2098(y: int)
    requires
        2098 <= y < 2103,
    ensures
        easter_md(y) == listed_easter(y as u32),
{
    reveal(easter_md);
    assert(y == 2098 || y == 2099 || y == 2100 || y == 2101 || y == 2102);
}

#[verifier::rlimit(60)]
proof fn lemma_listed_from_2103(y: int)
    requires
        2103 <= y < 2108,
    ensures
        easter_md(y) == listed_easter(y as u32),
{
    reveal(easter_md);
    assert(y == 2103 || y == 2104 || y == 2105 || y == 2106 || y == 2107);
}

#[verifier::rlimit(30)]
proof fn lemma_listed_from_2108(y: int)
    requires
        2108 <= y < 2113,
    ensures
        easter_md(y) == listed_easter(y as u32),
{
    reveal(easter_md);
    assert(y == 2108 || y == 2109 || y == 2110 || y == 2111 || y == 2112);
}

#[verifier::rlimit(30)]
proof fn lemma_listed_from_2113(y: int)
    requires
        2113 <= y < 2118,
    ensures
        easter_md(y) == listed_easter(y as u32),
{
    reveal(easter_md);
    assert(y == 2113 || y == 2114 || y == 2115 || y == 2116 || y == 2117);
}

#[verifier::rlimit(30)]
proof fn lemma_listed_from_2118(y: int)
    requires
        2118 <= y < 2123,
    ensures
        easter_md(y) == listed_easter(y as u32),
{
    reveal(easter_md);
    assert(y == 2118 || y == 2119 || y == 2120 || y == 2121 || y == 2122);
}

#[verifier::rlimit(30)]
proof fn lemma_listed_from_2123(y: int)
    requires
        2123 <= y < 2128,
    ensures
        easter_md(y) == listed_easter(y as u32),
{
    reveal(easter_md);
    assert(y == 2123 || y == 2124 || y == 2125 || y == 2126 || y == 2127);
}

#[verifier::rlimit(30)]
proof fn lemma_listed_from_2128(y: int)
    requires
        2128 <= y < 2133,
    ensures
        easter_md(y) == listed_easter(y as u32),
{
    reveal(easter_md);
    assert(y == 2128 || y == 2129 || y == 2130 || y == 2131 || y == 2132);
}

#[verifier::rlimit(30)]
proof fn lemma_listed_from_2133(y: int)
    requires
        2133 <= y < 2138,
    ensures
        easter_md(y) == listed_easter(y as u32),
{
    reveal(easter_md);
    assert(y == 2133 || y == 2134 || y == 2135 || y == 2136 || y == 2137);
}

#[verifier::rlimit(30)]
proof fn lemma_listed_from_2138(y: int)
    requires
        2138 <= y < 2143,
    ensures
        easter_md(y) == listed_easter(y as u32),
{
    reveal(easter_md);
    assert(y == 2138 || y == 2139 || y == 2140 || y == 2141 || y == 2142);
}

#[verifier::rlimit(30)]
proof fn lemma_listed_from_2143(y: int)
    requires
        2143 <= y < 2148,
    ensures
        easter_md(y) == listed_easter(y as u32),
{
    reveal(easter_md);
    assert(y == 2143 || y == 2144 || y == 2145 || y == 2146 || y == 2147);
}

#[verifier::rlimit(30)]
proof fn lemma_listed_from_2148(y: int)
    requires
        2148 <= y < 2153,
    ensures
        easter_md(y) == listed_easter(y as u32),
{
    reveal(easter_md);
    assert(y == 2148 || y == 2149 || y == 2150 || y == 2151 || y == 2152);
}

#[verifier::rlimit(30)]
proof fn lemma_listed_from_2153(y: int)
    requires
        2153 <= y < 2158,
    ensures
        easter_md(y) == listed_easter(y as u32),
{
    reveal(easter_md);
    assert(y == 2153 || y == 2154 || y == 2155 || y == 2156 || y == 2157);
}

#[verifier::rlimit(30)]
proof fn lemma_listed_from_2158(y: int)
    requires
        2158 <= y < 2163,
    ensures
        easter_md(y) == listed_easter(y as u32),
{
    reveal(easter_md);
    assert(y == 2158 || y == 2159 || y == 2160 || y == 2161 || y == 2162);
}

#[verifier::rlimit(30)]
proof fn lemma_listed_from_2163(y: int)
    requires
        2163 <= y < 2168,
    ensures
        easter_md(y) == listed_easter(y as u32),
{
    reveal(easter_md);
    assert(y == 2163 || y == 2164 || y == 2165 || y == 2166 || y == 2167);
}

#[verifier::rlimit(30)]
proof fn lemma_listed_from_2168(y: int)
    requires
        2168 <= y < 2173,
    ensures
        easter_md(y) == listed_easter(y as u32),
{
    reveal(easter_md);
    assert(y == 2168 || y == 2169 || y == 2170 || y == 2171 || y == 2172);
}

#[verifier::rlimit(30)]
proof fn lemma_listed_from_2173(y: int)
    requires
        2173 <= y < 2178,
    ensures
        easter_md(y) == listed_easter(y as u32),
{
    reveal(easter_md);
    assert(y == 2173 || y == 2174 || y == 2175 || y == 2176 || y == 2177);
}

#[verifier::rlimit(30)]
proof fn lemma_listed_from_2178(y: int)
    requires
        2178 <= y < 2183,
    ensures
        easter_md(y) == listed_easter(y as u32),
{
    reveal(easter_md);
    assert(y == 2178 || y == 2179 || y == 2180 || y == 2181 || y == 2182);
}

#[verifier::rlimit(30)]
proof fn lemma_listed_from_2183(y: int)
    requires
        2183 <= y < 2188,
    ensures
        easter_md(y) == listed_easter(y as u32),
{
    reveal(easter_md);
    assert(y == 2183 || y == 2184 || y == 2185 || y == 2186 || y == 2187);
}

#[verifier::rlimit(30)]
proof fn lemma_listed_from_2188(y: int)
    requires
        2188 <= y < 2193,
    ensures
        easter_md(y) == listed_easter(y as u32),
{
    reveal(easter_md);
    assert(y == 2188 || y == 2189 || y == 2190 || y == 2191 || y == 2192);
}

#[verifier::rlimit(30)]
proof fn lemma_listed_from_2193(y: int)
    requires
        2193 <= y < 2198,
    ensures
        easter_md(y) == listed_easter(y as u32),
{
    reveal(easter_md);
    assert(y == 2193 || y == 2194 || y == 2195 || y == 2196 || y == 2197);
}

#[verifier::rlimit(30)]
proof fn lemma_listed_from_2198(y: int)
    requires
        2198 <= y < 2203,
    ensures
        easter_md(y) == listed_easter(y as u32),
{
    reveal(easter_md);
    assert(y == 2198 || y == 2199 || y == 2200 || y == 2201 || y == 2202);
}

#[verifier::rlimit(30)]
proof fn lemma_listed_from_2203(y: int)
    requires
        2203 <= y < 2208,
    ensures
        easter_md(y) == listed_easter(y as u32),
{
    reveal(easter_md);
    assert(y == 2203 || y == 2204 || y == 2205 || y == 2206 || y == 2207);
}

#[verifier::rlimit(30)]
proof fn lemma_listed_from_2208(y: int)
    requires
        2208 <= y < 2213,
    ensures
        easter_md(y) == listed_easter(y as u32),
{
    reveal(easter_md);
    assert(y == 2208 || y == 2209 || y == 2210 || y == 2211 || y == 2212);
}

#[verifier::rlimit(30)]
proof fn lemma_listed_from_2213(y: int)
    requires
        2213 <= y < 2218,
    ensures
        easter_md(y) == listed_easter(y as u32),
{
    reveal(easter_md);
    assert(y == 2213 || y == 2214 || y == 2215 || y == 2216 || y == 2217);
}

#[verifier::rlimit(30)]
proof fn lemma_listed_from_2218(y: int)
    requires
        2218 <= y < 2223,
    ensures
        easter_md(y) == listed_easter(y as u32),
{
    reveal(easter_md);
    assert(y == 2218 || y == 2219 || y == 2220 || y == 2221 || y == 2222);
}

#[verifier::rlimit(30)]
proof fn lemma_listed_from_2223(y: int)
    requires
        2223 <= y < 2228,
    ensures
        easter_md(y) == listed_easter(y as u32),
{
    reveal(easter_md);
    assert(y == 2223 || y == 2224 || y == 2225 || y == 2226 || y == 2227);
}

#[verifier::rlimit(30)]
proof fn lemma_listed_from_2228(y: int)
    requires
        2228 <= y < 2233,
    ensures
        easter_md(y) == listed_easter(y as u32),
{
    reveal(easter_md);
    assert(y == 2228 || y == 2229 || y == 2230 || y == 2231 || y == 2232);
}

#[verifier::rlimit(30)]
proof fn lemma_listed_from_2233(y: int)
    requires
        2233 <= y < 2238,
    ensures
        easter_md(y) == listed_easter(y as u32),
{
    reveal(easter_md);
    assert(y == 2233 || y == 2234 || y == 2235 || y == 2236 || y == 2237);
}

#[verifier::rlimit(30)]
proof fn lemma_listed_from_2238(y: int)
    requires
        2238 <= y < 2243,
    ensures
        easter_md(y) == listed_easter(y as u32),
{
    reveal(easter_md);
    assert(y == 2238 || y == 2239 || y == 2240 || y == 2241 || y == 2242);
}

#[verifier::rlimit(30)]
proof fn lemma_listed_from_2243(y: int)
    requires
        2243 <= y < 2248,
    ensures
        easter_md(y) == listed_easter(y as u32),
{
    reveal(easter_md);
    assert(y == 2243 || y == 2244 || y == 2245 || y == 2246 || y == 2247);
}

#[verifier::rlimit(30)]
proof fn lemma_listed_from_2248(y: int)
    requires
        2248 <= y < 2253,
    ensures
        easter_md(y) == listed_easter(y as u32),
{
    reveal(easter_md);
    assert(y == 2248 || y == 2249 || y == 2250 || y == 2251 || y == 2252);
}

#[verifier::rlimit(30)]
proof fn lemma_listed_from_2253(y: int)
    requires
        2253 <= y < 2258,
    ensures
        easter_md(y) == listed_easter(y as u32),
{
    reveal(easter_md);
    assert(y == 2253 || y == 2254 || y == 2255 || y == 2256 || y == 2257);
}

#[verifier::rlimit(30)]
proof fn lemma_listed_from_2258(y: int)
    requires
        2258 <= y < 2263,
    ensures
        easter_md(y) == listed_easter(y as u32),
{
    reveal(easter_md);
    assert(y == 2258 || y == 2259 || y == 2260 || y == 2261 || y == 2262);
}

#[verifier::rlimit(30)]
proof fn lemma_listed_from_2263(y: int)
    requires
        2263 <= y < 2268,
    ensures
        easter_md(y) == listed_easter(y as u32),
{
    reveal(easter_md);
    assert(y == 2263 || y == 2264 || y == 2265 || y == 2266 || y == 2267);
}

#[verifier::rlimit(30)]
proof fn lemma_listed_from_2268(y: int)
    requires
        2268 <= y < 2273,
    ensures
        easter_md(y) == listed_easter(y as u32),
{
    reveal(easter_md);
    assert(y == 2268 || y == 2269 || y == 2270 || y == 2271 || y == 2272);
}

#[verifier::rlimit(30)]
proof fn lemma_listed_from_2273(y: int)
    requires
        2273 <= y < 2278,
    ensures
        easter_md(y) == listed_easter(y as u32),
{
    reveal(easter_md);
    assert(y == 2273 || y == 2274 || y == 2275 || y == 2276 || y == 2277);
}

#[verifier::rlimit(30)]
proof fn lemma_listed_from_2278(y: int)
    requires
        2278 <= y < 2283,
    ensures
        easter_md(y) == listed_easter(y as u32),
{
    reveal(easter_md);
    assert(y == 2278 || y == 2279 || y == 2280 || y == 2281 || y == 2282);
}

#[verifier::rlimit(30)]
proof fn lemma_listed_from_2283(y: int)
    requires
        2283 <= y < 2288,
    ensures
        easter_md(y) == listed_easter(y as u32),
{
    reveal(easter_md);
    assert(y == 2283 || y == 2284 || y == 2285 || y == 2286 || y == 2287);
}

#[verifier::rlimit(30)]
proof fn lemma_listed_from_2288(y: int)
    requires
        2288 <= y < 2293,
    ensures
        easter_md(y) == listed_easter(y as u32),
{
    reveal(easter_md);
    assert(y == 2288 || y == 2289 || y == 2290 || y == 2291 || y == 2292);
}

#[verifier::rlimit(30)]
proof fn lemma_listed_from_2293(y: int)
    requires
        2293 <= y < 2298,
    ensures
        easter_md(y) == listed_easter(y as u32),
{
    reveal(easter_md);
    assert(y == 2293 || y == 2294 || y == 2295 || y == 2296 || y == 2297);
}

#[verifier::rlimit(30)]
proof fn lemma_listed_from_2298(y: int)
    requires
        2298 <= y < 2303,
    ensures
        easter_md(y) == listed_easter(y as u32),
{
    reveal(easter_md);
    assert(y == 2298 || y == 2299 || y == 2300 || y == 2301 || y == 2302);
}

#[verifier::rlimit(30)]
proof fn lemma_listed_from_2303(y: int)
    requires
        2303 <= y < 2308,
    ensures
        easter_md(y) == listed_easter(y as u32),
{
    reveal(easter_md);
    assert(y == 2303 || y == 2304 || y == 2305 || y == 2306 || y == 2307);
}

#[verifier::rlimit(30)]
proof fn lemma_listed_from_2308(y: int)
    requires
        2308 <= y < 2313,
    ensures
        easter_md(y) == listed_easter(y as u32),
{
    reveal(easter_md);
    assert(y == 2308 || y == 2309 || y == 2310 || y == 2311 || y == 2312);
}

#[verifier::rlimit(30)]
proof fn lemma_listed_from_2313(y: int)
    requires
        2313 <= y < 2318,
    ensures
        easter_md(y) == listed_easter(y as u32),
{
    reveal(easter_md);
    assert(y == 2313 || y == 2314 || y == 2315 || y == 2316 || y == 2317);
}

#[verifier::rlimit(30)]
proof fn lemma_listed_from_2318(y: int)
    requires
        2318 <= y < 2323,
    ensures
        easter_md(y) == listed_easter(y as u32),
{
    reveal(easter_md);
    assert(y == 2318 || y == 2319 || y == 2320 || y == 2321 || y == 2322);
}

#[verifier::rlimit(30)]
proof fn lemma_listed_from_2323(y: int)
    requires
        2323 <= y < 2328,
    ensures
        easter_md(y) == listed_easter(y as u32),
{
    reveal(easter_md);
    assert(y == 2323 || y == 2324 || y == 2325 || y == 2326 || y == 2327);
}

#[verifier::rlimit(30)]
proof fn lemma_listed_from_2328(y: int)
    requires
        2328 <= y < 2333,
    ensures
        easter_md(y) == listed_easter(y as u32),
{
    reveal(easter_md);
    assert(y == 2328 || y == 2329 || y == 2330 || y == 2331 || y == 2332);
}

#[verifier::rlimit(30)]
proof fn lemma_listed_from_2333(y: int)
    requires
        2333 <= y < 2338,
    ensures
        easter_md(y) == listed_easter(y as u32),
{
    reveal(easter_md);
    assert(y == 2333 || y == 2334 || y == 2335 || y == 2336 || y == 2337);
}

#[verifier::rlimit(30)]
proof fn lemma_listed_from_2338(y: int)
    requires
        2338 <= y < 2343,
    ensures
        easter_md(y) == listed_easter(y as u32),
{
    reveal(easter_md);
    assert(y == 2338 || y == 2339 || y == 2340 || y == 2341 || y == 2342);
}

#[verifier::rlimit(30)]
proof fn lemma_listed_from_2343(y: int)
    requires
        2343 <= y < 2348,
    ensures
        easter_md(y) == listed_easter(y as u32),
{
    reveal(easter_md);
    assert(y == 2343 || y == 2344 || y == 2345 || y == 2346 || y == 2347);
}

#[verifier::rlimit(30)]
proof fn lemma_listed_from_2348(y: int)
    requires
        2348 <= y < 2353,
    ensures
        easter_md(y) == listed_easter(y as u32),
{
    reveal(easter_md);
    assert(y == 2348 || y == 2349 || y == 2350 || y == 2351 || y == 2352);
}

#[verifier::rlimit(30)]
proof fn lemma_listed_from_2353(y: int)
    requires
        2353 <= y < 2358,
    ensures
        easter_md(y) == listed_easter(y as u32),
{
    reveal(easter_md);
    assert(y == 2353 || y == 2354 || y == 2355 || y == 2356 || y == 2357);
}

#[verifier::rlimit(30)]
proof fn lemma_listed_from_2358(y: int)
    requires
        2358 <= y < 2363,
    ensures
        easter_md(y) == listed_easter(y as u32),
{
    reveal(easter_md);
    assert(y == 2358 || y == 2359 || y == 2360 || y == 2361 || y == 2362);
}

#[verifier::rlimit(30)]
proof fn lemma_listed_from_2363(y: int)
    requires
        2363 <= y < 2368,
    ensures
        easter_md(y) == listed_easter(y as u32),
{
    reveal(easter_md);
    assert(y == 2363 || y == 2364 || y == 2365 || y == 2366 || y == 2367);
}

#[verifier::rlimit(30)]
proof fn lemma_listed_from_2368(y: int)
    requires
        2368 <= y < 2373,
    ensures
        easter_md(y) == listed_easter(y as u32),
{
    reveal(easter_md);
    assert(y == 2368 || y == 2369 || y == 2370 || y == 2371 || y == 2372);
}

#[verifier::rlimit(30)]
proof fn lemma_listed_from_2373(y: int)
    requires
        2373 <= y < 2378,
    ensures
        easter_md(y) == listed_easter(y as u32),
{
    reveal(easter_md);
    assert(y == 2373 || y == 2374 || y == 2375 || y == 2376 || y == 2377);
}

#[verifier::rlimit(30)]
proof fn lemma_listed_from_2378(y: int)
    requires
        2378 <= y < 2383,
    ensures
        easter_md(y) == listed_easter(y as u32),
{
    reveal(easter_md);
    assert(y == 2378 || y == 2379 || y == 2380 || y == 2381 || y == 2382);
}

#[verifier::rlimit(30)]
proof fn lemma_listed_from_2383(y: int)
    requires
        2383 <= y < 2388,
    ensures
        easter_md(y) == listed_easter(y as u32),
{
    reveal(easter_md);
    assert(y == 2383 || y == 2384 || y == 2385 || y == 2386 || y == 2387);
}

#[verifier::rlimit(30)]
proof fn lemma_listed_from_2388(y: int)
    requires
        2388 <= y < 2393,
    ensures
        easter_md(y) == listed_easter(y as u32),
{
    reveal(easter_md);
    assert(y == 2388 || y == 2389 || y == 2390 || y == 2391 || y == 2392);
}

#[verifier::rlimit(30)]
proof fn lemma_listed_from_2393(y: int)
    requires
        2393 <= y < 2398,
    ensures
        easter_md(y) == listed_easter(y as u32),
{
    reveal(easter_md);
    assert(y == 2393 || y == 2394 || y == 2395 || y == 2396 || y == 2397);
}

#[verifier::rlimit(30)]
proof fn lemma_listed_from_2398(y: int)
    requires
        2398 <= y < 2403,
    ensures
        easter_md(y) == listed_easter(y as u32),
{
    reveal(easter_md);
    assert(y == 2398 || y == 2399 || y == 2400 || y == 2401 || y == 2402);
}

#[verifier::rlimit(30)]
proof fn lemma_listed_from_2403(y: int)
    requires
        2403 <= y < 2408,
    ensures
        easter_md(y) == listed_easter(y as u32),
{
    reveal(easter_md);
    assert(y == 2403 || y == 2404 || y == 2405 || y == 2406 || y == 2407);
}

#[verifier::rlimit(30)]
proof fn lemma_listed_from_2408(y: int)
    requires
        2408 <= y < 2413,
    ensures
        easter_md(y) == listed_easter(y as u32),
{
    reveal(easter_md);
    assert(y == 2408 || y == 2409 || y == 2410 || y == 2411 || y == 2412);
}

#[verifier::rlimit(30)]
proof fn lemma_listed_from_2413(y: int)
    requires
        2413 <= y < 2418,
    ensures
        easter_md(y) == listed_easter(y as u32),
{
    reveal(easter_md);
    assert(y == 2413 || y == 2414 || y == 2415 || y == 2416 || y == 2417);
}

#[verifier::rlimit(30)]
proof fn lemma_listed_from_2418(y: int)
    requires
        2418 <= y < 2423,
    ensures
        easter_md(y) == listed_easter(y as u32),
{
    reveal(easter_md);
    assert(y == 2418 || y == 2419 || y == 2420 || y == 2421 || y == 2422);
}

#[verifier::rlimit(30)]
proof fn lemma_listed_from_2423(y: int)
    requires
        2423 <= y < 2428,
    ensures
        easter_md(y) == listed_easter(y as u32),
{
    reveal(easter_md);
    assert(y == 2423 || y == 2424 || y == 2425 || y == 2426 || y == 2427);
}

#[verifier::rlimit(30)]
proof fn lemma_listed_from_2428(y: int)
    requires
        2428 <= y < 2433,
    ensures
        easter_md(y) == listed_easter(y as u32),
{
    reveal(easter_md);
    assert(y == 2428 || y == 2429 || y == 2430 || y == 2431 || y == 2432);
}

#[verifier::rlimit(30)]
proof fn lemma_listed_from_2433(y: int)
    requires
        2433 <= y < 2438,
    ensures
        easter_md(y) == listed_easter(y as u32),
{
    reveal(easter_md);
    assert(y == 2433 || y == 2434 || y == 2435 || y == 2436 || y == 2437);
}

#[verifier::rlimit(30)]
proof fn lemma_listed_from_2438(y: int)
    requires
        2438 <= y < 2443,
    ensures
        easter_md(y) == listed_easter(y as u32),
{
    reveal(easter_md);
    assert(y == 2438 || y == 2439 || y == 2440 || y == 2441 || y == 2442);
}

#[verifier::rlimit(30)]
proof fn lemma_listed_from_2443(y: int)
    requires
        2443 <= y < 2448,
    ensures
        easter_md(y) == listed_easter(y as u32),
{
    reveal(easter_md);
    assert(y == 2443 || y == 2444 || y == 2445 || y == 2446 || y == 2447);
}

#[verifier::rlimit(30)]
proof fn lemma_listed_from_2448(y: int)
    requires
        2448 <= y < 2453,
    ensures
        easter_md(y) == listed_easter(y as u32),
{
    reveal(easter_md);
    assert(y == 2448 || y == 2449 || y == 2450 || y == 2451 || y == 2452);
}

#[verifier::rlimit(30)]
proof fn lemma_listed_from_2453(y: int)
    requires
        2453 <= y < 2458,
    ensures
        easter_md(y) == listed_easter(y as u32),
{
    reveal(easter_md);
    assert(y == 2453 || y == 2454 || y == 2455 || y == 2456 || y == 2457);
}

#[verifier::rlimit(30)]
proof fn lemma_listed_from_2458(y: int)
    requires
        2458 <= y < 2463,
    ensures
        easter_md(y) == listed_easter(y as u32),
{
    reveal(easter_md);
    assert(y == 2458 || y == 2459 || y == 2460 || y == 2461 || y == 2462);
}

#[verifier::rlimit(30)]
proof fn lemma_listed_from_2463(y: int)
    requires
        2463 <= y < 2468,
    ensures
        easter_md(y) == listed_easter(y as u32),
{
    reveal(easter_md);
    assert(y == 2463 || y == 2464 || y == 2465 || y == 2466 || y == 2467);
}

#[verifier::rlimit(30)]
proof fn lemma_listed_from_2468(y: int)
    requires
        2468 <= y < 2473,
    ensures
        easter_md(y) == listed_easter(y as u32),
{
    reveal(easter_md);
    assert(y == 2468 || y == 2469 || y == 2470 || y == 2471 || y == 2472);
}

#[verifier::rlimit(30)]
proof fn lemma_listed_from_2473(y: int)
    requires
        2473 <= y < 2478,
    ensures
        easter_md(y) == listed_easter(y as u32),
{
    reveal(easter_md);
    assert(y == 2473 || y == 2474 || y == 2475 || y == 2476 || y == 2477);
}

#[verifier::rlimit(30)]
proof fn lemma_listed_from_2478(y: int)
    requires
        2478 <= y < 2483,
    ensures
        easter_md(y) == listed_easter(y as u32),
{
    reveal(easter_md);
    assert(y == 2478 || y == 2479 || y == 2480 || y == 2481 || y == 2482);
}

#[verifier::rlimit(30)]
proof fn lemma_listed_from_2483(y: int)
    requires
        2483 <= y < 2488,
    ensures
        easter_md(y) == listed_easter(y as u32),
{
    reveal(easter_md);
    assert(y == 2483 || y == 2484 || y == 2485 || y == 2486 || y == 2487);
}

#[verifier::rlimit(30)]
proof fn lemma_listed_from_2488(y: int)
    requires
        2488 <= y < 2493,
    ensures
        easter_md(y) == listed_easter(y as u32),
{
    reveal(easter_md);
    assert(y == 2488 || y == 2489 || y == 2490 || y == 2491 || y == 2492);
}

#[verifier::rlimit(30)]
proof fn lemma_listed_from_2493(y: int)
    requires
        2493 <= y < 2498,
    ensures
        easter_md(y) == listed_easter(y as u32),
{
    reveal(easter_md);
    assert(y == 2493 || y == 2494 || y == 2495 || y == 2496 || y == 2497);
}

#[verifier::rlimit(30)]
proof fn lemma_listed_from_2498(y: int)
    requires
        2498 <= y < 2503,
    ensures
        easter_md(y) == listed_easter(y as u32),
{
    reveal(easter_md);
    assert(y == 2498 || y == 2499 || y == 2500 || y == 2501 || y == 2502);
}

#[verifier::rlimit(30)]
proof fn lemma_listed_from_2503(y: int)
    requires
        2503 <= y < 2508,
    ensures
        easter_md(y) == listed_easter(y as u32),
{
    reveal(easter_md);
    assert(y == 2503 || y == 2504 || y == 2505 || y == 2506 || y == 2507);
}

#[verifier::rlimit(30)]
proof fn lemma_listed_from_2508(y: int)
    requires
        2508 <= y < 2513,
    ensures
        easter_md(y) == listed_easter(y as u32),
{
    reveal(easter_md);
    assert(y == 2508 || y == 2509 || y == 2510 || y == 2511 || y == 2512);
}

#[verifier::rlimit(30)]
proof fn lemma_listed_from_2513(y: int)
    requires
        2513 <= y < 2518,
    ensures
        easter_md(y) == listed_easter(y as u32),
{
    reveal(easter_md);
    assert(y == 2513 || y == 2514 || y == 2515 || y == 2516 || y == 2517);
}

#[verifier::rlimit(30)]
proof fn lemma_listed_from_2518(y: int)
    requires
        2518 <= y < 2523,
    ensures
        easter_md(y) == listed_easter(y as u32),
{
    reveal(easter_md);
    assert(y == 2518 || y == 2519 || y == 2520 || y == 2521 || y == 2522);
}

#[verifier::rlimit(30)]
proof fn lemma_listed_from_2523(y: int)
    requires
        2523 <= y < 2528,
    ensures
        easter_md(y) == listed_easter(y as u32),
{
    reveal(easter_md);
    assert(y == 2523 || y == 2524 || y == 2525 || y == 2526 || y == 2527);
}

#[verifier::rlimit(30)]
proof fn lemma_listed_from_2528(y: int)
    requires
        2528 <= y < 2533,
    ensures
        easter_md(y) == listed_easter(y as u32),
{
    reveal(easter_md);
    assert(y == 2528 || y == 2529 || y == 2530 || y == 2531 || y == 2532);
}

#[verifier::rlimit(30)]
proof fn lemma_listed_from_2533(y: int)
    requires
        2533 <= y < 2538,
    ensures
        easter_md(y) == listed_easter(y as u32),
{
    reveal(easter_md);
    assert(y == 2533 || y == 2534 || y == 2535 || y == 2536 || y == 2537);
}

#[verifier::rlimit(30)]
proof fn lemma_listed_from_2538(y: int)
    requires
        2538 <= y < 2543,
    ensures
        easter_md(y) == listed_easter(y as u32),
{
    reveal(easter_md);
    assert(y == 2538 || y == 2539 || y == 2540 || y == 2541 || y == 2542);
}

#[verifier::rlimit(30)]
proof fn lemma_listed_from_2543(y: int)
    requires
        2543 <= y < 2548,
    ensures
        easter_md(y) == listed_easter(y as u32),
{
    reveal(easter_md);
    assert(y == 2543 || y == 2544 || y == 2545 || y == 2546 || y == 2547);
}

#[verifier::rlimit(30)]
proof fn lemma_listed_from_2548(y: int)
    requires
        2548 <= y < 2553,
    ensures
        easter_md(y) == listed_easter(y as u32),
{
    reveal(easter_md);
    assert(y == 2548 || y == 2549 || y == 2550 || y == 2551 || y == 2552);
}

#[verifier::rlimit(30)]
proof fn lemma_listed_from_2553(y: int)
    requires
        2553 <= y < 2558,
    ensures
        easter_md(y) == listed_easter(y as u32),
{
    reveal(easter_md);
    assert(y == 2553 || y == 2554 || y == 2555 || y == 2556 || y == 2557);
}

#[verifier::rlimit(30)]
proof fn lemma_listed_from_2558(y: int)
    requires
        2558 <= y < 2563,
    ensures
        easter_md(y) == listed_easter(y as u32),
{
    reveal(easter_md);
    assert(y == 2558 || y == 2559 || y == 2560 || y == 2561 || y == 2562);
}

#[verifier::rlimit(30)]
proof fn lemma_listed_from_2563(y: int)
    requires
        2563 <= y < 2568,
    ensures
        easter_md(y) == listed_easter(y as u32),
{
    reveal(easter_md);
    assert(y == 2563 || y == 2564 || y == 2565 || y == 2566 || y == 2567);
}

#[verifier::rlimit(30)]
proof fn lemma_listed_from_2568(y: int)
    requires
        2568 <= y < 2573,
    ensures
        easter_md(y) == listed_easter(y as u32),
{
    reveal(easter_md);
    assert(y == 2568 || y == 2569 || y == 2570 || y == 2571 || y == 2572);
}

#[verifier::rlimit(30)]
proof fn lemma_listed_from_2573(y: int)
    requires
        2573 <= y < 2578,
    ensures
        easter_md(y) == listed_easter(y as u32),
{
    reveal(easter_md);
    assert(y == 2573 || y == 2574 || y == 2575 || y == 2576 || y == 2577);
}

#[verifier::rlimit(30)]
proof fn lemma_listed_from_2578(y: int)
    requires
        2578 <= y < 2583,
    ensures
        easter_md(y) == listed_easter(y as u32),
{
    reveal(easter_md);
    assert(y == 2578 || y == 2579 || y == 2580 || y == 2581 || y == 2582);
}

#[verifier::rlimit(30)]
proof fn lemma_listed_from_2583(y: int)
    requires
        2583 <= y < 2588,
    ensures
        easter_md(y) == listed_easter(y as u32),
{
    reveal(easter_md);
    assert(y == 2583 || y == 2584 || y == 2585 || y == 2586 || y == 2587);
}

#[verifier::rlimit(30)]
proof fn lemma_listed_from_2588(y: int)
    requires
        2588 <= y < 2593,
    ensures
        easter_md(y) == listed_easter(y as u32),
{
    reveal(easter_md);
    assert(y == 2588 || y == 2589 || y == 2590 || y == 2591 || y == 2592);
}

#[verifier::rlimit(30)]
proof fn lemma_listed_from_2593(y: int)
    requires
        2593 <= y < 2598,
    ensures
        easter_md(y) == listed_easter(y as u32),
{
    reveal(easter_md);
    assert(y == 2593 || y == 2594 || y == 2595 || y == 2596 || y == 2597);
}

#[verifier::rlimit(30)]
proof fn lemma_listed_from_2598(y: int)
    requires
        2598 <= y < 2600,
    ensures
        easter_md(y) == listed_easter(y as u32),
{
    reveal(easter_md);
    assert(y == 2598 || y == 2599);
}

/// The computus agrees with the published Easter dates: for every year
/// from 1583, the first full year of the Gregorian calendar, to 2599,
/// Easter Sunday falls on the listed date.
pub proof fn easter_is_on_the_listed_date(y: int)
    requires
        1583 <= y < 2600,
    ensures
        easter_md(y) == listed_easter(y as u32),
{
    if y < 1588 {
        lemma_listed_from_1583(y);
    } else if y < 1593 {
        lemma_listed_from_1588(y);
    } else if y < 1598 {
        lemma_listed_from_1593(y);
    } else if y < 1603 {
        lemma_listed_from_1598(y);
    } else if y < 1608 {
        lemma_listed_from_1603(y);
    } else if y < 1613 {
        lemma_listed_from_1608(y);
    } else if y < 1618 {
        lemma_listed_from_1613(y);
    } else if y < 1623 {
        lemma_listed_from_1618(y);
    } else if y < 1628 {
        lemma_listed_from_1623(y);
    } else if y < 1633 {
        lemma_listed_from_1628(y);
    } else if y < 1638 {
        lemma_listed_from_1633(y);
    } else if y < 1643 {
        lemma_listed_from_1638(y);
    } else if y < 1648 {
        lemma_listed_from_1643(y);
    } else if y < 1653 {
        lemma_listed_from_1648(y);
    } else if y < 1658 {
        lemma_listed_from_1653(y);
    } else if y < 1663 {
        lemma_listed_from_1658(y);
    } else if y < 1668 {
        lemma_listed_from_1663(y);
    } else if y < 1673 {
        lemma_listed_from_1668(y);
    } else if y < 1678 {
        lemma_listed_from_1673(y);
    } else if y < 1683 {
        lemma_listed_from_1678(y);
    } else if y < 1688 {
        lemma_listed_from_1683(y);
    } else if y < 1693 {
        lemma_listed_from_1688(y);
    } else if y < 1698 {
        lemma_listed_from_1693(y);
    } else if y < 1703 {
        lemma_listed_from_1698(y);
    } else if y < 1708 {
        lemma_listed_from_1703(y);
    } else if y < 1713 {
        lemma_listed_from_1708(y);
    } else if y < 1718 {
        lemma_listed_from_1713(y);
    } else if y < 1723 {
        lemma_listed_from_1718(y);
    } else if y < 1728 {
        lemma_listed_from_1723(y);
    } else if y < 1733 {
        lemma_listed_from_1728(y);
    } else if y < 1738 {
        lemma_listed_from_1733(y);
    } else if y < 1743 {
        lemma_listed_from_1738(y);
    } else if y < 1748 {
        lemma_listed_from_1743(y);
    } else if y < 1753 {
        lemma_listed_from_1748(y);
    } else if y < 1758 {
        lemma_listed_from_1753(y);
    } else if y < 1763 {
        lemma_listed_from_1758(y);
    } else if y < 1768 {
        lemma_listed_from_1763(y);
    } else if y < 1773 {
        lemma_listed_from_1768(y);
    } else if y < 1778 {
        lemma_listed_from_1773(y);
    } else if y < 1783 {
        lemma_listed_from_1778(y);
    } else if y < 1788 {
        lemma_listed_from_1783(y);
    } else if y < 1793 {
        lemma_listed_from_1788(y);
    } else if y < 1798 {
        lemma_listed_from_1793(y);
    } else if y < 1803 {
        lemma_listed_from_1798(y);
    } else if y < 1808 {
        lemma_listed_from_1803(y);
    } else if y < 1813 {
        lemma_listed_from_1808(y);
    } else if y < 1818 {
        lemma_listed_from_1813(y);
    } else if y < 1823 {
        lemma_listed_from_1818(y);
    } else if y < 1828 {
        lemma_listed_from_1823(y);
    } else if y < 1833 {
        lemma_listed_from_1828(y);
    } else if y < 1838 {
        lemma_listed_from_1833(y);
    } else if y < 1843 {
        lemma_listed_from_1838(y);
    } else if y < 1848 {
        lemma_listed_from_1843(y);
    } else if y < 1853 {
        lemma_listed_from_1848(y);
    } else if y < 1858 {
        lemma_listed_from_1853(y);
    } else if y < 1863 {
        lemma_listed_from_1858(y);
    } else if y < 1868 {
        lemma_listed_from_1863(y);
    } else if y < 1873 {
        lemma_listed_from_1868(y);
    } else if y < 1878 {
        lemma_listed_from_1873(y);
    } else if y < 1883 {
        lemma_listed_from_1878(y);
    } else if y < 1888 {
        lemma_listed_from_1883(y);
    } else if y < 1893 {
        lemma_listed_from_1888(y);
    } else if y < 1898 {
        lemma_listed_from_1893(y);
    } else if y < 1903 {
        lemma_listed_from_1898(y);
    } else if y < 1908 {
        lemma_listed_from_1903(y);
    } else if y < 1913 {
        lemma_listed_from_1908(y);
    } else if y < 1918 {
        lemma_listed_from_1913(y);
    } else if y < 1923 {
        lemma_listed_from_1918(y);
    } else if y < 1928 {
        lemma_listed_from_1923(y);
    } else if y < 1933 {
        lemma_listed_from_1928(y);
    } else if y < 1938 {
        lemma_listed_from_1933(y);
    } else if y < 1943 {
        lemma_listed_from_1938(y);
    } else if y < 1948 {
        lemma_listed_from_1943(y);
    } else if y < 1953 {
        lemma_listed_from_1948(y);
    } else if y < 1958 {
        lemma_listed_from_1953(y);
    } else if y < 1963 {
        lemma_listed_from_1958(y);
    } else if y < 1968 {
        lemma_listed_from_1963(y);
    } else if y < 1973 {
        lemma_listed_from_1968(y);
    } else if y < 1978 {
        lemma_listed_from_1973(y);
    } else if y < 1983 {
        lemma_listed_from_1978(y);
    } else if y < 1988 {
        lemma_listed_from_1983(y);
    } else if y < 1993 {
        lemma_listed_from_1988(y);
    } else if y < 1998 {
        lemma_listed_from_1993(y);
    } else if y < 2003 {
        lemma_listed_from_1998(y);
    } else if y < 2008 {
        lemma_listed_from_2003(y);
    } else if y < 2013 {
        lemma_listed_from_2008(y);
    } else if y < 2018 {
        lemma_listed_from_2013(y);
    } else if y < 2023 {
        lemma_listed_from_2018(y);
    } else if y < 2028 {
        lemma_listed_from_2023(y);
    } else if y < 2033 {
        lemma_listed_from_2028(y);
    } else if y < 2038 {
        lemma_listed_from_2033(y);
    } else if y < 2043 {
        lemma_listed_from_2038(y);
    } else if y < 2048 {
        lemma_listed_from_2043(y);
    } else if y < 2053 {
        lemma_listed_from_2048(y);
    } else if y < 2058 {
        lemma_listed_from_2053(y);
    } else if y < 2063 {
        lemma_listed_from_2058(y);
    } else if y < 2068 {
        lemma_listed_from_2063(y);
    } else if y < 2073 {
        lemma_listed_from_2068(y);
    } else if y < 2078 {
        lemma_listed_from_2073(y);
    } else if y < 2083 {
        lemma_listed_from_2078(y);
    } else if y < 2088 {
        lemma_listed_from_2083(y);
    } else if y < 2093 {
        lemma_listed_from_2088(y);
    } else if y < 2098 {
        lemma_listed_from_2093(y);
    } else if y < 2103 {
        lemma_listed_from_2098(y);
    } else if y < 2108 {
        lemma_listed_from_2103(y);
    } else if y < 2113 {
        lemma_listed_from_2108(y);
    } else if y < 2118 {
        lemma_listed_from_2113(y);
    } else if y < 2123 {
        lemma_listed_from_2118(y);
    } else if y < 2128 {
        lemma_listed_from_2123(y);
    } else if y < 2133 {
        lemma_listed_from_2128(y);
    } else if y < 2138 {
        lemma_listed_from_2133(y);
    } else if y < 2143 {
        lemma_listed_from_2138(y);
    } else if y < 2148 {
        lemma_listed_from_2143(y);
    } else if y < 2153 {
        lemma_listed_from_2148(y);
    } else if y < 2158 {
        lemma_listed_from_2153(y);
    } else if y < 2163 {
        lemma_listed_from_2158(y);
    } else if y < 2168 {
        lemma_listed_from_2163(y);
    } else if y < 2173 {
        lemma_listed_from_2168(y);
    } else if y < 2178 {
        lemma_listed_from_2173(y);
    } else if y < 2183 {
        lemma_listed_from_2178(y);
    } else if y < 2188 {
        lemma_listed_from_2183(y);
    } else if y < 2193 {
        lemma_listed_from_2188(y);
    } else if y < 2198 {
        lemma_listed_from_2193(y);
    } else if y < 2203 {
        lemma_listed_from_2198(y);
    } else if y < 2208 {
        lemma_listed_from_2203(y);
    } else if y < 2213 {
        lemma_listed_from_2208(y);
    } else if y < 2218 {
        lemma_listed_from_2213(y);
    } else if y < 2223 {
        lemma_listed_from_2218(y);
    } else if y < 2228 {
        lemma_listed_from_2223(y);
    } else if y < 2233 {
        lemma_listed_from_2228(y);
    } else if y < 2238 {
        lemma_listed_from_2233(y);
    } else if y < 2243 {
        lemma_listed_from_2238(y);
    } else if y < 2248 {
        lemma_listed_from_2243(y);
    } else if y < 2253 {
        lemma_listed_from_2248(y);
    } else if y < 2258 {
        lemma_listed_from_2253(y);
    } else if y < 2263 {
        lemma_listed_from_2258(y);
    } else if y < 2268 {
        lemma_listed_from_2263(y);
    } else if y < 2273 {
        lemma_listed_from_2268(y);
    } else if y < 2278 {
        lemma_listed_from_2273(y);
    } else if y < 2283 {
        lemma_listed_from_2278(y);
    } else if y < 2288 {
        lemma_listed_from_2283(y);
    } else if y < 2293 {
        lemma_listed_from_2288(y);
    } else if y < 2298 {
        lemma_listed_from_2293(y);
    } else if y < 2303 {
        lemma_listed_from_2298(y);
    } else if y < 2308 {
        lemma_listed_from_2303(y);
    } else if y < 2313 {
        lemma_listed_from_2308(y);
    } else if y < 2318 {
        lemma_listed_from_2313(y);
    } else if y < 2323 {
        lemma_listed_from_2318(y);
    } else if y < 2328 {
        lemma_listed_from_2323(y);
    } else if y < 2333 {
        lemma_listed_from_2328(y);
    } else if y < 2338 {
        lemma_listed_from_2333(y);
    } else if y < 2343 {
        lemma_listed_from_2338(y);
    } else if y < 2348 {
        lemma_listed_from_2343(y);
    } else if y < 2353 {
        lemma_listed_from_2348(y);
    } else if y < 2358 {
        lemma_listed_from_2353(y);
    } else if y < 2363 {
        lemma_listed_from_2358(y);
    } else if y < 2368 {
        lemma_listed_from_2363(y);
    } else if y < 2373 {
        lemma_listed_from_2368(y);
    } else if y < 2378 {
        lemma_listed_from_2373(y);
    } else if y < 2383 {
        lemma_listed_from_2378(y);
    } else if y < 2388 {
        lemma_listed_from_2383(y);
    } else if y < 2393 {
        lemma_listed_from_2388(y);
    } else if y < 2398 {
        lemma_listed_from_2393(y);
    } else if y < 2403 {
        lemma_listed_from_2398(y);
    } else if y < 2408 {
        lemma_listed_from_2403(y);
    } else if y < 2413 {
        lemma_listed_from_2408(y);
    } else if y < 2418 {
        lemma_listed_from_2413(y);
    } else if y < 2423 {
        lemma_listed_from_2418(y);
    } else if y < 2428 {
        lemma_listed_from_2423(y);
    } else if y < 2433 {
        lemma_listed_from_2428(y);
    } else if y < 2438 {
        lemma_listed_from_2433(y);
    } else if y < 2443 {
        lemma_listed_from_2438(y);
    } else if y < 2448 {
        lemma_listed_from_2443(y);
    } else if y < 2453 {
        lemma_listed_from_2448(y);
    } else if y < 2458 {
        lemma_listed_from_2453(y);
    } else if y < 2463 {
        lemma_listed_from_2458(y);
    } else if y < 2468 {
        lemma_listed_from_2463(y);
    } else if y < 2473 {
        lemma_listed_from_2468(y);
    } else if y < 2478 {
        lemma_listed_from_2473(y);
    } else if y < 2483 {
        lemma_listed_from_2478(y);
    } else if y < 2488 {
        lemma_listed_from_2483(y);
    } else if y < 2493 {
        lemma_listed_from_2488(y);
    } else if y < 2498 {
        lemma_listed_from_2493(y);
    } else if y < 2503 {
        lemma_listed_from_2498(y);
    } else if y < 2508 {
        lemma_listed_from_2503(y);
    } else if y < 2513 {
        lemma_listed_from_2508(y);
    } else if y < 2518 {
        lemma_listed_from_2513(y);
    } else if y < 2523 {
        lemma_listed_from_2518(y);
    } else if y < 2528 {
        lemma_listed_from_2523(y);
    } else if y < 2533 {
        lemma_listed_from_2528(y);
    } else if y < 2538 {
        lemma_listed_from_2533(y);
    } else if y < 2543 {
        lemma_listed_from_2538(y);
    } else if y < 2548 {
        lemma_listed_from_2543(y);
    } else if y < 2553 {
        lemma_listed_from_2548(y);
    } else if y < 2558 {
        lemma_listed_from_2553(y);
    } else if y < 2563 {
        lemma_listed_from_2558(y);
    } else if y < 2568 {
        lemma_listed_from_2563(y);
    } else if y < 2573 {
        lemma_listed_from_2568(y);
    } else if y < 2578 {
        lemma_listed_from_2573(y);
    } else if y < 2583 {
        lemma_listed_from_2578(y);
    } else if y < 2588 {
        lemma_listed_from_2583(y);
    } else if y < 2593 {
        lemma_listed_from_2588(y);
    } else if y < 2598 {
        lemma_listed_from_2593(y);
    } else if y < 2600 {
        lemma_listed_from_2598(y);
    }
}

/// Easter Sunday as a day number: between 15 March and 26 April from the
/// year 0 on.
pub proof fn lemma_easter_num(y: int)
    requires
        y >= 0,
    ensures
        day_number(y, 3, 15) <= easter_num(y) <= day_number(y, 4, 26),
{
    lemma_easter_range(y);
    reveal(easter_num);
}

/// Wednesday before 23 November, as a day number: `n22` is 22 November.
pub open spec fn wednesday_on_or_before(n22: int) -> int {
    n22 - (weekday_of(n22) - 2 + 7) % 7
}

/// Whether name `a` sorts before name `b`: character by character, a
/// prefix first.
#[verifier::opaque]
pub open spec fn name_lt(a: Seq<char>, b: Seq<char>) -> bool
    decreases a.len(),
{
    if a.len() == 0 {
        b.len() > 0
    } else if b.len() == 0 {
        false
    } else if a[0] != b[0] {
        a[0] < b[0]
    } else {
        name_lt(a.drop_first(), b.drop_first())
    }
}

/// `a` is not after `b`: an earlier date, or the same date and a name that
/// does not sort after `b`'s.
pub open spec fn hol_le(a: (int, Seq<char>), b: (int, Seq<char>)) -> bool {
    a.0 < b.0 || (a.0 == b.0 && !name_lt(b.1, a.1))
}

/// The holidays of Saxony in year `y`, as day numbers and names.
pub open spec fn holiday_list(y: int) -> Seq<(int, Seq<char>)> {
    let e = easter_num(y);
    seq![
        (day_number(y, 1, 1), "Neujahr"@),
        (e - 2, "Karfreitag"@),
        (e + 1, "Ostermontag"@),
        (day_number(y, 5, 1), "Tag der Arbeit"@),
        (e + 39, "Christi Himmelfahrt"@),
        (e + 50, "Pfingstmontag"@),
        (day_number(y, 10, 3), "Tag der Deutschen Einheit"@),
        (day_number(y, 10, 31), "Reformationstag"@),
        (wednesday_on_or_before(day_number(y, 11, 22)), "Buß- und Bettag"@),
        (day_number(y, 12, 25), "1. Weihnachtstag"@),
        (day_number(y, 12, 26), "2. Weihnachtstag"@),
    ]
}

/// A holiday as its day number and name.
pub open spec fn hol_view(h: (Date, &str)) -> (int, Seq<char>) {
    (h.0.num(), h.1@)
}

/// Month and day of Easter Sunday as the computus gives them, which may
/// not be a date (see [`easter_ok`]).
fn easter_month_day(year: i32) -> (r: (i32, i32))
    ensures
        r.0 == easter_md(year as int).0,
        r.1 == easter_md(year as int).1,
{
    let a = year % 19;
    assert(a == tmod(year as int, 19) && -19 < a < 19);
    let b = year / 100;
    assert(b == tdiv(year as int, 100) && -21474837 < b < 21474837);
    let c = year % 100;
    assert(c == tmod(year as int, 100) && -100 < c < 100);
    let d = b / 4;
    assert(d == tdiv(b as int, 4) && -5368710 < d < 5368710);
    let e = b % 4;
    assert(e == tmod(b as int, 4) && -4 < e < 4);
    let f = (b + 8) / 25;
    assert(f == tdiv(b + 8, 25) && -858994 < f < 858994);
    let g = (b - f + 1) / 3;
    assert(g == tdiv(b - f + 1, 3) && -7443944 < g < 7443944);
    let h = (19 * a + b - d - g + 15) % 30;
    assert(h == tmod(19 * a + b - d - g + 15, 30) && -30 < h < 30);
    let i = c / 4;
    assert(i == tdiv(c as int, 4) && -26 < i < 26);
    let k = c % 4;
    assert(k == tmod(c as int, 4) && -4 < k < 4);
    let l = (32 + 2 * e + 2 * i - h - k) % 7;
    assert(l == tmod(32 + 2 * e + 2 * i - h - k, 7) && -7 < l < 7);
    let m = (a + 11 * h + 22 * l) / 451;
    assert(m == tdiv(a + 11 * h + 22 * l, 451) && -3 < m < 3);
    let month = (h + l - 7 * m + 114) / 31;
    let day = ((h + l - 7 * m + 114) % 31) + 1;
    proof {
        reveal(easter_md);
    }
    (month, day)
}

/// Whether the computus gives a date in `year`.
pub fn easter_defined(year: i32) -> (r: bool)
    ensures
        r == easter_ok(year as int),
{
    let (month, day) = easter_month_day(year);
    month >= 1 && day >= 1 && Date::from_ymd_opt(year, month as u32, day as u32).is_some()
}

/// Easter Sunday of `year`.
#[verifier::spinoff_prover]
pub fn easter_sunday(year: i32) -> (r: Date)
    requires
        easter_ok(year as int),
    ensures
        r@ == (year as int, easter_md(year as int).0, easter_md(year as int).1),
        r.num() == easter_num(year as int),
{
    let (month, day) = easter_month_day(year);
    proof {
        reveal(easter_num);
    }
    Date::from_ymd_opt(year, month as u32, day as u32).unwrap()
}

/// Wednesday before 23 November.
pub fn buss_und_bettag(year: i32) -> (r: Date)
    requires
        crate::date::MIN_YEAR <= year <= MAX_YEAR,
    ensures
        r.num() == wednesday_on_or_before(day_number(year as int, 11, 22)),
{
    let mut d = Date::from_ymd_opt(year, 11, 22).unwrap();
    let ghost n22 = d.num();
    let ghost off = (weekday_of(n22) - 2 + 7) % 7;
    proof {
        if year > crate::date::MIN_YEAR {
            lemma_year_mono(crate::date::MIN_YEAR as int, year as int);
        }
        lemma_within_year(crate::date::MIN_YEAR as int, 1, 1);
        lemma_within_year(year as int, 11, 16);
        lemma_within_year(year as int, 12, 31);
        if year < MAX_YEAR {
            lemma_year_mono(year as int, MAX_YEAR as int);
        }
        lemma_within_year(MAX_YEAR as int, 12, 31);
        assert((n22 - off) % 7 == 2);
    }
    let mut w = d.weekday();
    while w != 2
        invariant
            n22 == day_number(year as int, 11, 22),
            off == (weekday_of(n22) - 2 + 7) % 7,
            (n22 - off) % 7 == 2,
            0 <= n22 - d.num() <= off,
            w == weekday_of(d.num()),
            first_day_number() < n22 - 6,
            n22 < last_day_number(),
        decreases d.num() - (n22 - off),
    {
        proof {
            if n22 - d.num() == off {
                assert(weekday_of(d.num()) == 2);
            }
        }
        d = d.pred_opt().unwrap();
        w = d.weekday();
    }
    d
}

/// `x` put into `s` just before the first holiday it is not after.
pub open spec fn insert_hol(s: Seq<(int, Seq<char>)>, x: (int, Seq<char>)) -> Seq<(int, Seq<char>)>
    decreases s.len(),
{
    if s.len() == 0 {
        seq![x]
    } else if hol_le(x, s[0]) {
        seq![x] + s
    } else {
        seq![s[0]] + insert_hol(s.drop_first(), x)
    }
}

/// `s` sorted by date and, on the same date, by name: each holiday inserted
/// in turn.
pub open spec fn sort_hols(s: Seq<(int, Seq<char>)>) -> Seq<(int, Seq<char>)>
    decreases s.len(),
{
    if s.len() == 0 {
        s
    } else {
        insert_hol(sort_hols(s.drop_last()), s.last())
    }
}

/// The holidays of [`holiday_list`] sorted by date and, on the same date, by
/// name.
pub open spec fn sorted_list(y: int) -> Seq<(int, Seq<char>)> {
    sort_hols(holiday_list(y))
}

/// Every holiday of `s` is not after the next one.
pub open spec fn in_order(s: Seq<(int, Seq<char>)>) -> bool {
    forall|k: int| 0 <= k < s.len() - 1 ==> hol_le(#[trigger] s[k], s[k + 1])
}

/// Of two names, at most one sorts before the other.
proof fn lemma_name_asym(a: Seq<char>, b: Seq<char>)
    ensures
        !(name_lt(a, b) && name_lt(b, a)),
    decreases a.len(),
{
    reveal(name_lt);
    if a.len() > 0 && b.len() > 0 && a[0] == b[0] {
        lemma_name_asym(a.drop_first(), b.drop_first());
    }
}

/// Of two holidays, one is not after the other.
proof fn lemma_hol_total(a: (int, Seq<char>), b: (int, Seq<char>))
    ensures
        hol_le(a, b) || hol_le(b, a),
{
    lemma_name_asym(a.1, b.1);
}

/// Inserting keeps a list in order, and lengthens it by the one holiday.
proof fn lemma_insert_hol(s: Seq<(int, Seq<char>)>, x: (int, Seq<char>))
    requires
        in_order(s),
    ensures
        in_order(insert_hol(s, x)),
        insert_hol(s, x).len() == s.len() + 1,
        insert_hol(s, x)[0] == x || (s.len() > 0 && insert_hol(s, x)[0] == s[0]),
        insert_hol(s, x).to_multiset() == s.to_multiset().insert(x),
    decreases s.len(),
{
    broadcast use vstd::seq_lib::group_seq_properties;
    if s.len() == 0 {
        assert(insert_hol(s, x) =~= seq![x]);
        assert(s =~= Seq::<(int, Seq<char>)>::empty());
        s.to_multiset_ensures();
        assert(seq![x] =~= Seq::<(int, Seq<char>)>::empty().push(x));
    } else if hol_le(x, s[0]) {
        let r = seq![x] + s;
        assert(forall|k: int| 0 <= k < r.len() - 1 ==> #[trigger] r[k] == if k == 0 {
            x
        } else {
            s[k - 1]
        });
        assert(forall|k: int| 0 <= k < r.len() - 1 ==> hol_le(#[trigger] r[k], r[k + 1])) by {
            assert forall|k: int| 0 <= k < r.len() - 1 implies hol_le(#[trigger] r[k], r[k + 1]) by {
                if k > 0 {
                    assert(r[k] == s[k - 1] && r[k + 1] == s[k]);
                }
            }
        }
        assert(r =~= s.insert(0, x));
        vstd::seq_lib::lemma_seq_union_to_multiset_commutative(seq![x], s);
        vstd::seq_lib::lemma_multiset_commutative(seq![x], s);
        assert(seq![x] =~= Seq::<(int, Seq<char>)>::empty().push(x));
    } else {
        let t = s.drop_first();
        assert(in_order(t)) by {
            assert forall|k: int| 0 <= k < t.len() - 1 implies hol_le(#[trigger] t[k], t[k + 1]) by {
                assert(t[k] == s[k + 1] && t[k + 1] == s[k + 2]);
            }
        }
        lemma_insert_hol(t, x);
        lemma_hol_total(x, s[0]);
        let i = insert_hol(t, x);
        let r = seq![s[0]] + i;
        assert forall|k: int| 0 <= k < r.len() - 1 implies hol_le(#[trigger] r[k], r[k + 1]) by {
            if k == 0 {
                assert(r[1] == i[0]);
                if i[0] != x {
                    assert(i[0] == t[0] && t[0] == s[1]);
                }
            } else {
                assert(r[k] == i[k - 1] && r[k + 1] == i[k]);
            }
        }
        assert(s =~= seq![s[0]] + t);
        vstd::seq_lib::lemma_multiset_commutative(seq![s[0]], i);
        vstd::seq_lib::lemma_multiset_commutative(seq![s[0]], t);
    }
}

/// Sorting puts the holidays in order and keeps each of them.
proof fn lemma_sort_hols(s: Seq<(int, Seq<char>)>)
    ensures
        in_order(sort_hols(s)),
        sort_hols(s).len() == s.len(),
        sort_hols(s).to_multiset() == s.to_multiset(),
    decreases s.len(),
{
    broadcast use vstd::seq_lib::group_seq_properties;
    if s.len() == 0 {
    } else {
        lemma_sort_hols(s.drop_last());
        lemma_insert_hol(sort_hols(s.drop_last()), s.last());
        assert(s =~= s.drop_last().push(s.last()));
    }
}

/// [`sorted_list`] is in order: by date, and on the same date by name.
pub proof fn lemma_sorted_list_in_order(y: int)
    ensures
        sorted_list(y).len() == 11,
        forall|k: int| 0 <= k < 10 ==> hol_le(#[trigger] sorted_list(y)[k], sorted_list(y)[k + 1]),
{
    lemma_sort_hols(holiday_list(y));
}

/// [`sorted_list`] holds the holidays of [`holiday_list`], each as often.
pub proof fn lemma_sorted_list_holds(y: int)
    ensures
        sorted_list(y).to_multiset() == holiday_list(y).to_multiset(),
{
    lemma_sort_hols(holiday_list(y));
}

/// Where `x` goes into `s` is before the first holiday it is not after.
proof fn lemma_insert_at(s: Seq<(int, Seq<char>)>, x: (int, Seq<char>), p: int)
    requires
        0 <= p <= s.len(),
        forall|q: int| 0 <= q < p ==> !hol_le(x, #[trigger] s[q]),
        p < s.len() ==> hol_le(x, s[p]),
    ensures
        insert_hol(s, x) == s.insert(p, x),
    decreases p,
{
    if p == 0 {
        if s.len() == 0 {
            assert(insert_hol(s, x) =~= s.insert(p, x));
        } else {
            assert(insert_hol(s, x) =~= s.insert(p, x));
        }
    } else {
        let t = s.drop_first();
        assert(!hol_le(x, s[0]));
        assert forall|q: int| 0 <= q < p - 1 implies !hol_le(x, #[trigger] t[q]) by {
            assert(t[q] == s[q + 1]);
        }
        if p - 1 < t.len() {
            assert(t[p - 1] == s[p]);
        }
        lemma_insert_at(t, x, p - 1);
        assert(insert_hol(s, x) =~= s.insert(p, x));
    }
}

/// A holiday as its day number and name, for each of `v`.
pub open spec fn hols_view(v: Seq<(Date, &str)>) -> Seq<(int, Seq<char>)> {
    Seq::new(v.len(), |i: int| hol_view(v[i]))
}

/// Whether name `a` sorts before name `b`.
fn name_before(a: &str, b: &str) -> (r: bool)
    ensures
        r == name_lt(a@, b@),
{
    let va = crate::text::chars_of(a);
    let vb = crate::text::chars_of(b);
    let mut i: usize = 0;
    proof {
        assert(a@.skip(0) =~= a@);
        assert(b@.skip(0) =~= b@);
    }
    while i < va.len() && i < vb.len() && va[i] == vb[i]
        invariant
            i <= va@.len(),
            i <= vb@.len(),
            va@ == a@,
            vb@ == b@,
            name_lt(a@, b@) == name_lt(a@.skip(i as int), b@.skip(i as int)),
        decreases va.len() - i,
    {
        proof {
            reveal(name_lt);
            assert(a@.skip(i as int).drop_first() =~= a@.skip(i + 1));
            assert(b@.skip(i as int).drop_first() =~= b@.skip(i + 1));
        }
        i += 1;
    }
    proof {
        reveal(name_lt);
    }
    if i == va.len() {
        i < vb.len()
    } else if i == vb.len() {
        false
    } else {
        va[i] < vb[i]
    }
}

/// Whether holiday `a` is not after holiday `b`.
fn hol_not_after(a: (Date, &str), b: (Date, &str)) -> (r: bool)
    ensures
        r == hol_le(hol_view(a), hol_view(b)),
{
    a.0.before(&b.0) || (a.0.same(&b.0) && !name_before(b.1, a.1))
}

/// The name of the first holiday of `w` on the day numbered `n`.
pub open spec fn first_on(w: Seq<(int, Seq<char>)>, n: int) -> Option<Seq<char>>
    decreases w.len(),
{
    if w.len() == 0 {
        None
    } else if w[0].0 == n {
        Some(w[0].1)
    } else {
        first_on(w.drop_first(), n)
    }
}

/// The eleven public holidays of Saxony in `year`, sorted by date and, on
/// the same date, by name.
#[verifier::rlimit(40)]
pub fn saxony_holidays(year: i32) -> (r: Vec<(Date, &'static str)>)
    requires
        easter_ok(year as int),
    ensures
        r@.len() == 11,
        forall|i: int| 0 <= i < 11 ==> #[trigger] hol_view(r@[i]) == sorted_list(year as int)[i],
{
    let easter = easter_sunday(year);
    proof {
        lemma_easter_spring(year as int);
        if year > crate::date::MIN_YEAR {
            lemma_year_mono(crate::date::MIN_YEAR as int, year as int);
        }
        lemma_within_year(crate::date::MIN_YEAR as int, 1, 1);
        lemma_within_year(year as int, 1, 1);
        lemma_within_year(year as int, 2, 1);
        lemma_within_year(year as int, 5, 31);
        lemma_within_year(year as int, 12, 31);
        if year < MAX_YEAR {
            lemma_year_mono(year as int, MAX_YEAR as int);
        }
        lemma_within_year(MAX_YEAR as int, 12, 31);
        lemma_month_mono(year as int, 5, 12);
    }
    let new_year = Date::from_ymd_opt(year, 1, 1).unwrap();
    let good_friday = easter.checked_sub_days(2).unwrap();
    let easter_monday = easter.checked_add_days(1).unwrap();
    let may_day = Date::from_ymd_opt(year, 5, 1).unwrap();
    let ascension = easter.checked_add_days(39).unwrap();
    let whit_monday = easter.checked_add_days(50).unwrap();
    let unity = Date::from_ymd_opt(year, 10, 3).unwrap();
    let reformation = Date::from_ymd_opt(year, 10, 31).unwrap();
    let repentance = buss_und_bettag(year);
    let christmas = Date::from_ymd_opt(year, 12, 25).unwrap();
    let boxing = Date::from_ymd_opt(year, 12, 26).unwrap();
    let mut v: Vec<(Date, &'static str)> = Vec::new();
    v.push((new_year, "Neujahr"));
    v.push((good_friday, "Karfreitag"));
    v.push((easter_monday, "Ostermontag"));
    v.push((may_day, "Tag der Arbeit"));
    v.push((ascension, "Christi Himmelfahrt"));
    v.push((whit_monday, "Pfingstmontag"));
    v.push((unity, "Tag der Deutschen Einheit"));
    v.push((reformation, "Reformationstag"));
    v.push((repentance, "Buß- und Bettag"));
    v.push((christmas, "1. Weihnachtstag"));
    v.push((boxing, "2. Weihnachtstag"));
    let ghost l = holiday_list(year as int);
    proof {
        assert(hols_view(v@) =~= l);
    }
    let mut out: Vec<(Date, &'static str)> = Vec::new();
    let mut j: usize = 0;
    while j < v.len()
        invariant
            j <= v@.len() == 11,
            hols_view(v@) == l,
            hols_view(out@) == sort_hols(l.take(j as int)),
            out@.len() == j,
        decreases v.len() - j,
    {
        let x = v[j];
        let ghost so = hols_view(out@);
        proof {
            lemma_sort_hols(l.take(j as int));
        }
        let mut p: usize = 0;
        while p < out.len() && !hol_not_after(x, out[p])
            invariant
                p <= out@.len(),
                so == hols_view(out@),
                hol_view(x) == l[j as int],
                forall|q: int| 0 <= q < p ==> !hol_le(hol_view(x), #[trigger] so[q]),
            decreases out.len() - p,
        {
            p += 1;
        }
        proof {
            lemma_insert_at(so, hol_view(x), p as int);
            assert(l.take(j + 1).drop_last() =~= l.take(j as int));
            assert(l.take(j + 1).last() == l[j as int]);
        }
        out.insert(p, x);
        proof {
            assert(hols_view(out@) =~= so.insert(p as int, hol_view(x)));
        }
        j += 1;
    }
    proof {
        assert(l.take(11) =~= l);
    }
    out
}

/// The holidays of Saxony, plus the extra days of the user's own.
#[derive(Clone, Debug, Default)]
pub struct HolidayCalendar {
    extra: Vec<Date>,
}

/// Whether the holidays of `d` can be told: it is an extra holiday, or the
/// computus gives its year an Easter.
pub open spec fn known_on(extra: Seq<Date>, d: Date) -> bool {
    listed(extra, d) || easter_ok(d@.0)
}

/// Whether `d` is one of `extra`.
pub open spec fn listed(extra: Seq<Date>, d: Date) -> bool {
    exists|i: int| 0 <= i < extra.len() && extra[i] == d
}

impl HolidayCalendar {
    pub fn new(extra: Vec<Date>) -> (r: HolidayCalendar)
        ensures
            r.extra() == extra@,
    {
        HolidayCalendar { extra }
    }

    /// The extra holidays.
    pub closed spec fn extra(&self) -> Seq<Date> {
        self.extra@
    }

    /// The name of the holiday on `d`: an extra day is an "Extra holiday",
    /// otherwise the first Saxon holiday on that date in the sorted list, if
    /// any.
    pub fn holiday_name(&self, d: Date) -> (r: Option<String>)
        requires
            known_on(self.extra(), d),
        ensures
            listed(self.extra(), d) ==> (r matches Some(s) && s@ == "Extra holiday"@),
            !listed(self.extra(), d) ==> match r {
                Some(s) => first_on(sorted_list(d@.0), d.num()) == Some(s@),
                None => first_on(sorted_list(d@.0), d.num()) is None,
            },
    {
        let mut i: usize = 0;
        while i < self.extra.len()
            invariant
                i <= self.extra@.len(),
                forall|j: int| 0 <= j < i ==> self.extra@[j] != d,
            decreases self.extra.len() - i,
        {
            if self.extra[i].same(&d) {
                return Some(String::from_str("Extra holiday"));
            }
            i += 1;
        }
        d.valid();
        let list = saxony_holidays(d.year());
        let ghost y = d@.0;
        let ghost w = sorted_list(y);
        proof {
            assert(w.skip(0) =~= w);
            lemma_sorted_list_in_order(y);
        }
        let mut k: usize = 0;
        while k < list.len()
            invariant
                k <= list@.len() == 11 == w.len(),
                forall|j: int| 0 <= j < self.extra@.len() ==> self.extra@[j] != d,
                y == d@.0,
                w == sorted_list(y),
                forall|i: int| 0 <= i < 11 ==> #[trigger] hol_view(list@[i]) == w[i],
                first_on(w, d.num()) == first_on(w.skip(k as int), d.num()),
            decreases list.len() - k,
        {
            let (hd, name) = list[k];
            proof {
                assert(hol_view(list@[k as int]) == w[k as int]);
                assert(w.skip(k as int)[0] == w[k as int]);
                assert(w.skip(k as int).drop_first() =~= w.skip(k + 1));
            }
            if hd.same(&d) {
                return Some(String::from_str(name));
            }
            k += 1;
        }
        None
    }

    /// Whether the holidays of `d` can be told.
    pub fn knows(&self, d: Date) -> (r: bool)
        ensures
            r == known_on(self.extra(), d),
    {
        let mut i: usize = 0;
        while i < self.extra.len()
            invariant
                i <= self.extra@.len(),
                forall|j: int| 0 <= j < i ==> self.extra@[j] != d,
            decreases self.extra.len() - i,
        {
            if self.extra[i].same(&d) {
                return true;
            }
            i += 1;
        }
        easter_defined(d.year())
    }

    /// Whether `d` is a holiday.
    pub fn is_holiday(&self, d: Date) -> (r: bool)
        requires
            known_on(self.extra(), d),
        ensures
            r == (listed(self.extra(), d) || first_on(sorted_list(d@.0), d.num()) is Some),
    {
        self.holiday_name(d).is_some()
    }
}

} // verus!
