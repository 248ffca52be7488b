#!/usr/bin/env python3
"""Exhaustive check of the luminance rule in src/color.rs.

A colour is light when 0.2126 r + 0.7152 g + 0.0722 b > 0.5, each channel
being its byte divided by 255, evaluated in single precision from left to
right.  src/color.rs decides the same question in integers:

    2126 R + 7152 G + 722 B > 1275000, or (R, G, B) == (30, 153, 162).

This script evaluates the single-precision expression for all 2^24 byte
triples (by a threshold search per (R, G), since rounding is monotone) and
reports every triple on which the two rules differ.  Three-digit codes give
the channel x / 15, which rounds to the same single-precision value as
(17 x) / 255, so the byte triples cover them too.

Run: python3 extras/luminance_check.py   (prints "mismatches 0")
"""
import struct


def f32(x):
    """Round a double to the nearest single-precision value."""
    return struct.unpack('f', struct.pack('f', x))[0]


C1, C2, C3 = f32(0.2126), f32(0.7152), f32(0.0722)
A = [f32(C1 * f32(v / 255.0)) for v in range(256)]
B = [f32(C2 * f32(v / 255.0)) for v in range(256)]
C = [f32(C3 * f32(v / 255.0)) for v in range(256)]
assert all(C[i] <= C[i + 1] for i in range(255))


def float_threshold(r, g):
    """Smallest blue byte for which the single-precision sum exceeds 0.5."""
    s = f32(A[r] + B[g])
    lo, hi = 0, 256
    while lo < hi:
        m = (lo + hi) // 2
        if f32(s + C[m]) > 0.5:
            hi = m
        else:
            lo = m + 1
    return lo


def integer_light(r, g, b):
    return 2126 * r + 7152 * g + 722 * b > 1275000 or (r, g, b) == (30, 153, 162)


def integer_threshold(r, g):
    for b in range(256):
        if integer_light(r, g, b):
            # the rule is monotone in b except at the single listed triple
            if all(integer_light(r, g, x) for x in range(b, 256)):
                return b
    return 256


mismatches = 0
for r in range(256):
    for g in range(256):
        if float_threshold(r, g) != integer_threshold(r, g):
            mismatches += 1
            print("mismatch at", r, g)
print("mismatches", mismatches)
